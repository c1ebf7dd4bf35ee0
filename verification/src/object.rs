//! The ordered map at the core of the value model: a sorted key vector and a
//! value vector aligned index-for-index, searched by binary search.
use crate::order::KeyCmp;
use crate::order::lemma_lex_le_trans;
use crate::order::lemma_lex_lt_asymm;
use crate::order::lemma_lex_lt_le_trans;
use crate::order::lemma_lex_lt_total;
use crate::order::lex_le;
use crate::order::sorted_le;
use crate::order::lemma_lex_lt_irrefl;
use crate::order::lemma_lex_lt_trans;
use crate::order::lex_lt;
use crate::order::sorted_strict;
use crate::order::str_cmp;
use crate::value::Value;
use vstd::prelude::*;

verus! {

/// The character-sequence views of a sequence of key strings.
pub open spec fn key_views(keys: Seq<String>) -> Seq<Seq<char>> {
    Seq::new(keys.len(), |i: int| keys[i]@)
}

/// Parallel sequences form a well-formed map: equal lengths and strictly
/// increasing keys.
pub open spec fn map_wf(kv: Seq<Seq<char>>, vv: Seq<Value>) -> bool {
    vv.len() == kv.len() && sorted_strict(kv)
}

pub open spec fn map_has(kv: Seq<Seq<char>>, k: Seq<char>) -> bool {
    exists|i: int| 0 <= i < kv.len() && kv[i] == k
}

/// The position holding key `k`; meaningful only when the key is present
/// (under `map_wf` that position is unique).
pub open spec fn map_at(kv: Seq<Seq<char>>, k: Seq<char>) -> int {
    choose|i: int| 0 <= i < kv.len() && kv[i] == k
}

/// The logical map content of the two parallel sequences: the value aligned
/// with key `k`, if any.
pub open spec fn map_get(kv: Seq<Seq<char>>, vv: Seq<Value>, k: Seq<char>) -> Option<Value> {
    if map_has(kv, k) {
        Some(vv[map_at(kv, k)])
    } else {
        None
    }
}

/// A key found at a position is the key the map contains there: under
/// `map_wf` the position is unique and determines the looked-up value.
pub proof fn lemma_map_found(kv: Seq<Seq<char>>, vv: Seq<Value>, k: Seq<char>, i: int)
    requires
        map_wf(kv, vv),
        0 <= i < kv.len(),
        kv[i] == k,
    ensures
        map_has(kv, k),
        map_at(kv, k) == i,
        map_get(kv, vv, k) == Some(vv[i]),
{
    assert(map_has(kv, k));
    let j = map_at(kv, k);
    if j != i {
        lemma_lex_lt_irrefl(k);
    }
}

/// A key smaller than everything from some position on and greater than
/// everything before it is absent.
pub proof fn lemma_map_absent(kv: Seq<Seq<char>>, vv: Seq<Value>, k: Seq<char>, pos: int)
    requires
        0 <= pos <= kv.len(),
        forall|j: int| 0 <= j < pos ==> lex_lt(kv[j], k),
        forall|j: int| pos <= j < kv.len() ==> lex_lt(k, kv[j]),
    ensures
        !map_has(kv, k),
        map_get(kv, vv, k) is None,
{
    assert forall|j: int| 0 <= j < kv.len() implies kv[j] != k by {
        lemma_lex_lt_irrefl(k);
    }
}

/// Inserting a key at its search position keeps the keys strictly sorted.
pub proof fn lemma_sorted_insert(kv: Seq<Seq<char>>, i: int, k: Seq<char>)
    requires
        sorted_strict(kv),
        0 <= i <= kv.len(),
        forall|j: int| 0 <= j < i ==> lex_lt(kv[j], k),
        forall|j: int| i <= j < kv.len() ==> lex_lt(k, kv[j]),
    ensures
        sorted_strict(kv.insert(i, k)),
{
    kv.insert_ensures(i, k);
    let kv2 = kv.insert(i, k);
    assert forall|p: int, q: int| 0 <= p < q < kv2.len() implies lex_lt(kv2[p], kv2[q]) by {
        if p < i && q < i {
            assert(kv2[p] == kv[p] && kv2[q] == kv[q]);
        } else if p < i && q == i {
            assert(kv2[p] == kv[p] && kv2[q] == k);
        } else if p < i && q > i {
            assert(kv2[p] == kv[p] && kv2[q] == kv[q - 1]);
        } else if p == i {
            assert(kv2[p] == k && kv2[q] == kv[q - 1]);
        } else {
            assert(kv2[p] == kv[p - 1] && kv2[q] == kv[q - 1]);
        }
    }
}

/// Removing a position keeps the keys strictly sorted.
pub proof fn lemma_sorted_remove(kv: Seq<Seq<char>>, i: int)
    requires
        sorted_strict(kv),
        0 <= i < kv.len(),
    ensures
        sorted_strict(kv.remove(i)),
{
    kv.remove_ensures(i);
    let kv2 = kv.remove(i);
    assert forall|p: int, q: int| 0 <= p < q < kv2.len() implies lex_lt(kv2[p], kv2[q]) by {
        if p < i && q < i {
            assert(kv2[p] == kv[p] && kv2[q] == kv[q]);
        } else if p < i && q >= i {
            assert(kv2[p] == kv[p] && kv2[q] == kv[q + 1]);
        } else {
            assert(kv2[p] == kv[p + 1] && kv2[q] == kv[q + 1]);
        }
    }
}

/// String views commute with insertion into the key vector.
pub proof fn lemma_key_views_insert(keys: Seq<String>, i: int, k: String)
    requires
        0 <= i <= keys.len(),
    ensures
        key_views(keys.insert(i, k)) =~= key_views(keys).insert(i, k@),
{
    keys.insert_ensures(i, k);
    key_views(keys).insert_ensures(i, k@);
}

/// String views commute with removal from the key vector.
pub proof fn lemma_key_views_remove(keys: Seq<String>, i: int)
    requires
        0 <= i < keys.len(),
    ensures
        key_views(keys.remove(i)) =~= key_views(keys).remove(i),
{
    keys.remove_ensures(i);
    key_views(keys).remove_ensures(i);
}

/// Inserting one pair at the new key's search position leaves every other
/// key's lookup unchanged.
pub proof fn lemma_map_get_insert_other(
    kv: Seq<Seq<char>>,
    vv: Seq<Value>,
    i: int,
    k: Seq<char>,
    v: Value,
    k2: Seq<char>,
)
    requires
        map_wf(kv, vv),
        0 <= i <= kv.len(),
        sorted_strict(kv.insert(i, k)),
        k2 != k,
    ensures
        map_get(kv.insert(i, k), vv.insert(i, v), k2) == map_get(kv, vv, k2),
{
    kv.insert_ensures(i, k);
    vv.insert_ensures(i, v);
    let kv2 = kv.insert(i, k);
    let vv2 = vv.insert(i, v);
    if map_has(kv, k2) {
        let j = map_at(kv, k2);
        assert(0 <= j < kv.len() && kv[j] == k2);
        let j2: int = if j < i {
            j
        } else {
            j + 1
        };
        assert(kv2[j2] == k2 && vv2[j2] == vv[j]);
        lemma_map_found(kv2, vv2, k2, j2);
        lemma_map_found(kv, vv, k2, j);
    } else {
        if map_has(kv2, k2) {
            let j2 = map_at(kv2, k2);
            assert(0 <= j2 < kv2.len() && kv2[j2] == k2);
            if j2 < i {
                assert(kv[j2] == k2);
            } else if j2 > i {
                assert(kv[j2 - 1] == k2);
            }
        }
    }
}

/// Removing one pair leaves every other key's lookup unchanged.
pub proof fn lemma_map_get_remove_other(
    kv: Seq<Seq<char>>,
    vv: Seq<Value>,
    i: int,
    k2: Seq<char>,
)
    requires
        map_wf(kv, vv),
        0 <= i < kv.len(),
        k2 != kv[i],
    ensures
        map_get(kv.remove(i), vv.remove(i), k2) == map_get(kv, vv, k2),
{
    kv.remove_ensures(i);
    vv.remove_ensures(i);
    lemma_sorted_remove(kv, i);
    let kv2 = kv.remove(i);
    let vv2 = vv.remove(i);
    if map_has(kv, k2) {
        let j = map_at(kv, k2);
        assert(0 <= j < kv.len() && kv[j] == k2);
        let j2: int = if j < i {
            j
        } else {
            j - 1
        };
        assert(kv2[j2] == k2 && vv2[j2] == vv[j]);
        lemma_map_found(kv2, vv2, k2, j2);
        lemma_map_found(kv, vv, k2, j);
    } else {
        if map_has(kv2, k2) {
            let j2 = map_at(kv2, k2);
            assert(0 <= j2 < kv2.len() && kv2[j2] == k2);
            if j2 < i {
                assert(kv[j2] == k2);
            } else {
                assert(kv[j2 + 1] == k2);
            }
        }
    }
}

/// Replacing the value at one position leaves every other key's lookup
/// unchanged.
pub proof fn lemma_map_get_update_other(
    kv: Seq<Seq<char>>,
    vv: Seq<Value>,
    i: int,
    v: Value,
    k2: Seq<char>,
)
    requires
        map_wf(kv, vv),
        0 <= i < kv.len(),
        k2 != kv[i],
    ensures
        map_get(kv, vv.update(i, v), k2) == map_get(kv, vv, k2),
{
    if map_has(kv, k2) {
        let j = map_at(kv, k2);
        assert(0 <= j < kv.len() && kv[j] == k2);
        lemma_map_found(kv, vv, k2, j);
        lemma_map_found(kv, vv.update(i, v), k2, j);
    }
}

/// Stable two-way merge of key/value pair sequences: heads are compared
/// under the key order, ties take the left side's pair first, and nothing is
/// deduplicated.
pub open spec fn merged(
    ak: Seq<Seq<char>>,
    av: Seq<Value>,
    bk: Seq<Seq<char>>,
    bv: Seq<Value>,
) -> (Seq<Seq<char>>, Seq<Value>)
    decreases ak.len() + bk.len(),
{
    if ak.len() == 0 {
        (bk, bv)
    } else if bk.len() == 0 {
        (ak, av)
    } else if lex_le(ak[0], bk[0]) {
        let m = merged(ak.drop_first(), av.drop_first(), bk, bv);
        (seq![ak[0]] + m.0, seq![av[0]] + m.1)
    } else {
        let m = merged(ak, av, bk.drop_first(), bv.drop_first());
        (seq![bk[0]] + m.0, seq![bv[0]] + m.1)
    }
}

/// The merge of aligned sequences is aligned, with the lengths adding up.
pub proof fn lemma_merged_len(ak: Seq<Seq<char>>, av: Seq<Value>, bk: Seq<Seq<char>>, bv: Seq<Value>)
    requires
        av.len() == ak.len(),
        bv.len() == bk.len(),
    ensures
        merged(ak, av, bk, bv).0.len() == ak.len() + bk.len(),
        merged(ak, av, bk, bv).1.len() == ak.len() + bk.len(),
    decreases ak.len() + bk.len(),
{
    if ak.len() == 0 || bk.len() == 0 {
    } else if lex_le(ak[0], bk[0]) {
        lemma_merged_len(ak.drop_first(), av.drop_first(), bk, bv);
    } else {
        lemma_merged_len(ak, av, bk.drop_first(), bv.drop_first());
    }
}

/// The key occurs in one of the two sequences.
pub open spec fn from_either(x: Seq<char>, ak: Seq<Seq<char>>, bk: Seq<Seq<char>>) -> bool {
    (exists|j: int| 0 <= j < ak.len() && x == ak[j]) || (exists|j: int|
        0 <= j < bk.len() && x == bk[j])
}

/// Merging sorted key sequences gives a sorted key sequence whose elements
/// all come from one of the two sides.
pub proof fn lemma_merged_sorted(
    ak: Seq<Seq<char>>,
    av: Seq<Value>,
    bk: Seq<Seq<char>>,
    bv: Seq<Value>,
)
    requires
        sorted_le(ak),
        sorted_le(bk),
    ensures
        sorted_le(merged(ak, av, bk, bv).0),
        forall|i: int|
            0 <= i < merged(ak, av, bk, bv).0.len() ==> from_either(
                #[trigger] merged(ak, av, bk, bv).0[i],
                ak,
                bk,
            ),
    decreases ak.len() + bk.len(),
{
    let m = merged(ak, av, bk, bv).0;
    if ak.len() == 0 || bk.len() == 0 {
        assert forall|i: int| 0 <= i < m.len() implies from_either(m[i], ak, bk) by {
            if ak.len() == 0 {
                assert(m[i] == bk[i]);
            } else {
                assert(m[i] == ak[i]);
            }
        }
    } else {
        let take_a = lex_le(ak[0], bk[0]);
        let head = if take_a {
            ak[0]
        } else {
            bk[0]
        };
        let rest = if take_a {
            merged(ak.drop_first(), av.drop_first(), bk, bv).0
        } else {
            merged(ak, av, bk.drop_first(), bv.drop_first()).0
        };
        if take_a {
            lemma_merged_sorted(ak.drop_first(), av.drop_first(), bk, bv);
        } else {
            lemma_merged_sorted(ak, av, bk.drop_first(), bv.drop_first());
        }
        assert(m == seq![head] + rest);
        if !take_a {
            lemma_lex_lt_total(ak[0], bk[0]);
        }
        // the head precedes everything that remains on either side
        assert forall|q: int| 0 < q < m.len() implies lex_le(m[0], m[q]) by {
            assert(m[q] == rest[q - 1]);
            if take_a {
                assert(from_either(rest[q - 1], ak.drop_first(), bk));
                if exists|j: int| 0 <= j < ak.drop_first().len() && rest[q - 1]
                    == ak.drop_first()[j] {
                    let j = choose|j: int|
                        0 <= j < ak.drop_first().len() && rest[q - 1] == ak.drop_first()[j];
                    assert(ak.drop_first()[j] == ak[j + 1]);
                } else {
                    let j = choose|j: int| 0 <= j < bk.len() && rest[q - 1] == bk[j];
                    lemma_lex_le_trans(ak[0], bk[0], bk[j]);
                }
            } else {
                assert(from_either(rest[q - 1], ak, bk.drop_first()));
                if exists|j: int| 0 <= j < ak.len() && rest[q - 1] == ak[j] {
                    let j = choose|j: int| 0 <= j < ak.len() && rest[q - 1] == ak[j];
                    lemma_lex_lt_le_trans(bk[0], ak[0], ak[j]);
                } else {
                    let j = choose|j: int|
                        0 <= j < bk.drop_first().len() && rest[q - 1] == bk.drop_first()[j];
                    assert(bk.drop_first()[j] == bk[j + 1]);
                }
            }
        }
        assert forall|p: int, q: int| 0 <= p < q < m.len() implies lex_le(m[p], m[q]) by {
            if p > 0 {
                assert(m[p] == rest[p - 1] && m[q] == rest[q - 1]);
            }
        }
        assert forall|i: int| 0 <= i < m.len() implies from_either(m[i], ak, bk) by {
            if i == 0 {
                assert(take_a ==> m[i] == ak[0]);
                assert(!take_a ==> m[i] == bk[0]);
            } else {
                assert(m[i] == rest[i - 1]);
                if take_a {
                    assert(from_either(rest[i - 1], ak.drop_first(), bk));
                    if exists|j: int| 0 <= j < ak.drop_first().len() && rest[i - 1]
                        == ak.drop_first()[j] {
                        let j = choose|j: int|
                            0 <= j < ak.drop_first().len() && rest[i - 1] == ak.drop_first()[j];
                        assert(m[i] == ak[j + 1]);
                    }
                } else {
                    assert(from_either(rest[i - 1], ak, bk.drop_first()));
                    if exists|j: int| 0 <= j < bk.drop_first().len() && rest[i - 1]
                        == bk.drop_first()[j] {
                        let j = choose|j: int|
                            0 <= j < bk.drop_first().len() && rest[i - 1] == bk.drop_first()[j];
                        assert(m[i] == bk[j + 1]);
                    }
                }
            }
        }
    }
}

#[derive(Debug, PartialEq, PartialOrd)]
pub struct Object {
    keys: Vec<String>,
    values: Vec<Value>,
}

impl Object {
    /// The keys as character sequences, in storage order.
    pub closed spec fn keys_view(self) -> Seq<Seq<char>> {
        key_views(self.keys@)
    }

    /// The values in storage order, aligned with `keys_view`.
    pub closed spec fn vals_view(self) -> Seq<Value> {
        self.values@
    }

    pub open spec fn spec_len(self) -> nat {
        self.keys_view().len()
    }

    /// Well-formed: the two vectors have equal length and the keys are
    /// strictly increasing (unique and sorted).
    pub open spec fn wf(self) -> bool {
        map_wf(self.keys_view(), self.vals_view())
    }

    pub open spec fn spec_contains_key(self, k: Seq<char>) -> bool {
        map_has(self.keys_view(), k)
    }

    /// The position holding key `k`; meaningful only when the key is present
    /// (under `wf` that position is unique).
    pub open spec fn spec_index_of(self, k: Seq<char>) -> int {
        map_at(self.keys_view(), k)
    }

    /// The logical map content: the value stored under `k`, if any.
    pub open spec fn spec_get(self, k: Seq<char>) -> Option<Value> {
        map_get(self.keys_view(), self.vals_view(), k)
    }

    /// Creates an empty map.
    pub fn new() -> (r: Object)
        ensures
            r.wf(),
            r.spec_len() == 0,
    {
        Object { keys: Vec::new(), values: Vec::new() }
    }

    /// Empties the map: both vectors become empty.
    pub fn clear(&mut self)
        ensures
            final(self).wf(),
            final(self).spec_len() == 0,
    {
        self.keys.clear();
        self.values.clear();
    }

    pub fn len(&self) -> (r: usize)
        ensures
            r == self.spec_len(),
    {
        self.keys.len()
    }

    pub fn is_empty(&self) -> (r: bool)
        ensures
            r == (self.spec_len() == 0),
    {
        self.len() == 0
    }

    /// Binary search for `key`: the position holding it, or the position at
    /// which it would have to be inserted to keep the keys sorted.
    fn get_index_for_key(&self, key: &str) -> (r: Result<usize, usize>)
        requires
            self.wf(),
        ensures
            match r {
                Ok(i) => i < self.spec_len() && self.keys_view()[i as int] == key@,
                Err(i) => {
                    &&& i <= self.spec_len()
                    &&& forall|j: int| 0 <= j < i ==> lex_lt(self.keys_view()[j], key@)
                    &&& forall|j: int|
                        i <= j < self.spec_len() ==> lex_lt(key@, self.keys_view()[j])
                },
            },
    {
        let mut lo: usize = 0;
        let mut hi: usize = self.keys.len();
        while lo < hi
            invariant
                self.wf(),
                lo <= hi <= self.spec_len(),
                forall|j: int| 0 <= j < lo ==> lex_lt(self.keys_view()[j], key@),
                forall|j: int| hi <= j < self.spec_len() ==> lex_lt(key@, self.keys_view()[j]),
            decreases hi - lo,
    {
        let mid = lo + (hi - lo) / 2;
        match str_cmp(self.keys[mid].as_str(), key) {
            KeyCmp::Less => {
                proof {
                    assert forall|j: int| 0 <= j < mid + 1 implies lex_lt(
                        self.keys_view()[j],
                        key@,
                    ) by {
                        if j < mid {
                            lemma_lex_lt_trans(
                                self.keys_view()[j],
                                self.keys_view()[mid as int],
                                key@,
                            );
                        }
                    }
                }
                lo = mid + 1;
            },
            KeyCmp::Greater => {
                proof {
                    assert forall|j: int| mid <= j < self.spec_len() implies lex_lt(
                        key@,
                        self.keys_view()[j],
                    ) by {
                        if j > mid {
                            lemma_lex_lt_trans(
                                key@,
                                self.keys_view()[mid as int],
                                self.keys_view()[j],
                            );
                        }
                    }
                }
                hi = mid;
            },
            KeyCmp::Equal => {
                return Ok(mid);
            },
        }
    }
        Err(lo)
    }

    /// Looks the key up; `Some` exactly when the map holds the key, and then
    /// the stored value.
    pub fn get<'a>(&'a self, key: &str) -> (r: Option<&'a Value>)
        requires
            self.wf(),
        ensures
            match r {
                Some(v) => self.spec_get(key@) == Some(*v),
                None => !self.spec_contains_key(key@) && self.spec_get(key@) is None,
            },
    {
        match self.get_index_for_key(key) {
            Ok(i) => {
                proof {
                    lemma_map_found(self.keys_view(), self.vals_view(), key@, i as int);
                }
                Some(&self.values[i])
            },
            Err(i) => {
                proof {
                    lemma_map_absent(self.keys_view(), self.vals_view(), key@, i as int);
                }
                None
            },
        }
    }

    /// The search succeeds exactly when the map holds the key.
    pub fn contains_key(&self, key: &str) -> (r: bool)
        requires
            self.wf(),
        ensures
            r == self.spec_contains_key(key@),
    {
        match self.get_index_for_key(key) {
            Ok(i) => {
                proof {
                    lemma_map_found(self.keys_view(), self.vals_view(), key@, i as int);
                }
                true
            },
            Err(i) => {
                proof {
                    lemma_map_absent(self.keys_view(), self.vals_view(), key@, i as int);
                }
                false
            },
        }
    }

    /// Maps `k` to `v`: replaces and returns the previous value when the key
    /// is present, otherwise inserts the pair at its sorted position and
    /// returns `None`. Every other key's binding is untouched.
    pub fn insert(&mut self, k: String, v: Value) -> (r: Option<Value>)
        requires
            old(self).wf(),
        ensures
            final(self).wf(),
            r == old(self).spec_get(k@),
            final(self).spec_contains_key(k@),
            final(self).spec_get(k@) == Some(v),
            forall|k2: Seq<char>| k2 != k@ ==> final(self).spec_get(k2) == old(self).spec_get(k2),
            final(self).spec_len() == old(self).spec_len() + (if old(self).spec_contains_key(k@) {
                0int
            } else {
                1int
            }),
    {
        let ghost kv = self.keys_view();
        let ghost vv = self.vals_view();
        match self.get_index_for_key(k.as_str()) {
            Ok(i) => {
                let prev = self.values.remove(i);
                self.values.insert(i, v);
                proof {
                    assert(self.vals_view() =~= vv.update(i as int, v));
                    lemma_map_found(kv, vv, k@, i as int);
                    lemma_map_found(kv, self.vals_view(), k@, i as int);
                    assert forall|k2: Seq<char>| k2 != k@ implies map_get(
                        kv,
                        vv.update(i as int, v),
                        k2,
                    ) == map_get(kv, vv, k2) by {
                        lemma_map_get_update_other(kv, vv, i as int, v, k2);
                    }
                }
                Some(prev)
            },
            Err(i) => {
                self.keys.insert(i, k);
                self.values.insert(i, v);
                proof {
                    lemma_key_views_insert(old(self).keys@, i as int, k);
                    lemma_map_absent(kv, vv, k@, i as int);
                    lemma_sorted_insert(kv, i as int, k@);
                    lemma_map_found(kv.insert(i as int, k@), vv.insert(i as int, v), k@, i as int);
                    assert forall|k2: Seq<char>| k2 != k@ implies map_get(
                        kv.insert(i as int, k@),
                        vv.insert(i as int, v),
                        k2,
                    ) == map_get(kv, vv, k2) by {
                        lemma_map_get_insert_other(kv, vv, i as int, k@, v, k2);
                    }
                }
                None
            },
        }
    }

    /// Removes the binding of `key`, returning its value; a miss returns
    /// `None` and leaves the map unchanged.
    pub fn remove(&mut self, key: &str) -> (r: Option<Value>)
        requires
            old(self).wf(),
        ensures
            final(self).wf(),
            r == old(self).spec_get(key@),
            !final(self).spec_contains_key(key@),
            forall|k2: Seq<char>|
                k2 != key@ ==> final(self).spec_get(k2) == old(self).spec_get(k2),
            final(self).spec_len() == old(self).spec_len() - (if old(self).spec_contains_key(
                key@,
            ) {
                1int
            } else {
                0int
            }),
            !old(self).spec_contains_key(key@) ==> *final(self) == *old(self),
    {
        let ghost kv = self.keys_view();
        let ghost vv = self.vals_view();
        match self.get_index_for_key(key) {
            Ok(i) => {
                self.keys.remove(i);
                let prev = self.values.remove(i);
                proof {
                    lemma_key_views_remove(old(self).keys@, i as int);
                    kv.remove_ensures(i as int);
                    lemma_sorted_remove(kv, i as int);
                    lemma_map_found(kv, vv, key@, i as int);
                    assert forall|j: int| 0 <= j < kv.remove(i as int).len() implies kv.remove(
                        i as int,
                    )[j] != key@ by {
                        lemma_map_found(kv, vv, key@, i as int);
                        if j < i as int {
                            assert(kv.remove(i as int)[j] == kv[j]);
                            if kv[j] == key@ {
                                lemma_map_found(kv, vv, key@, j);
                            }
                        } else {
                            assert(kv.remove(i as int)[j] == kv[j + 1]);
                            if kv[j + 1] == key@ {
                                lemma_map_found(kv, vv, key@, j + 1);
                            }
                        }
                    }
                    assert forall|k2: Seq<char>| k2 != key@ implies map_get(
                        kv.remove(i as int),
                        vv.remove(i as int),
                        k2,
                    ) == map_get(kv, vv, k2) by {
                        lemma_map_get_remove_other(kv, vv, i as int, k2);
                    }
                }
                Some(prev)
            },
            Err(i) => {
                proof {
                    lemma_map_absent(kv, vv, key@, i as int);
                }
                None
            },
        }
    }

    /// Looks the key up for in-place mutation: `Some` exactly when the map
    /// holds the key; writing through the returned reference changes only
    /// that key's value.
    pub fn get_mut<'a>(&'a mut self, key: &str) -> (r: Option<&'a mut Value>)
        requires
            old(self).wf(),
        ensures
            match r {
                Some(v) => {
                    &&& old(self).spec_contains_key(key@)
                    &&& old(self).spec_get(key@) == Some(*v)
                    &&& final(self).keys_view() == old(self).keys_view()
                    &&& final(self).spec_len() == old(self).spec_len()
                    &&& final(self).vals_view() == old(self).vals_view().update(
                        old(self).spec_index_of(key@),
                        *final(v),
                    )
                    &&& final(self).wf()
                },
                None => !old(self).spec_contains_key(key@) && *final(self) == *old(self),
            },
    {
        let ghost kv = self.keys_view();
        let ghost vv = self.vals_view();
        match self.get_index_for_key(key) {
            Ok(i) => {
                proof {
                    lemma_map_found(kv, vv, key@, i as int);
                }
                Some(&mut self.values[i])
            },
            Err(i) => {
                proof {
                    lemma_map_absent(kv, vv, key@, i as int);
                }
                None
            },
        }
    }

    /// Destructively merges `other` into `self`, leaving `other` empty. The
    /// result is the stable merge of the two sorted pair sequences: keys stay
    /// sorted, nothing is deduplicated (a key present in both maps survives
    /// twice, `self`'s entry first), and each side's relative order is kept.
    pub fn append(&mut self, other: &mut Object)
        requires
            old(self).wf(),
            old(other).wf(),
        ensures
            final(other).wf(),
            final(other).spec_len() == 0,
            final(self).keys_view() == merged(
                old(self).keys_view(),
                old(self).vals_view(),
                old(other).keys_view(),
                old(other).vals_view(),
            ).0,
            final(self).vals_view() == merged(
                old(self).keys_view(),
                old(self).vals_view(),
                old(other).keys_view(),
                old(other).vals_view(),
            ).1,
            final(self).spec_len() == old(self).spec_len() + old(other).spec_len(),
            final(self).vals_view().len() == final(self).spec_len(),
            sorted_le(final(self).keys_view()),
    {
        let ghost ak0 = self.keys_view();
        let ghost av0 = self.vals_view();
        let ghost bk0 = other.keys_view();
        let ghost bv0 = other.vals_view();
        let mut nk: Vec<String> = Vec::new();
        let mut nv: Vec<Value> = Vec::new();
        while self.keys.len() > 0 || other.keys.len() > 0
            invariant
                self.values@.len() == self.keys@.len(),
                other.values@.len() == other.keys@.len(),
                nv@.len() == nk@.len(),
                key_views(nk@) + merged(
                    self.keys_view(),
                    self.vals_view(),
                    other.keys_view(),
                    other.vals_view(),
                ).0 == merged(ak0, av0, bk0, bv0).0,
                nv@ + merged(
                    self.keys_view(),
                    self.vals_view(),
                    other.keys_view(),
                    other.vals_view(),
                ).1 == merged(ak0, av0, bk0, bv0).1,
            decreases self.keys@.len() + other.keys@.len(),
        {
            let from_self: bool = if other.keys.len() == 0 {
                true
            } else if self.keys.len() == 0 {
                false
            } else {
                match str_cmp(self.keys[0].as_str(), other.keys[0].as_str()) {
                    KeyCmp::Less => true,
                    KeyCmp::Equal => true,
                    KeyCmp::Greater => {
                        proof {
                            lemma_lex_lt_asymm(
                                other.keys_view()[0],
                                self.keys_view()[0],
                            );
                        }
                        false
                    },
                }
            };
            let ghost cak = self.keys_view();
            let ghost cav = self.vals_view();
            let ghost cbk = other.keys_view();
            let ghost cbv = other.vals_view();
            if from_self {
                let ghost cks = self.keys@;
                let k = self.keys.remove(0);
                let v = self.values.remove(0);
                proof {
                    assert(self.keys@ =~= cks.drop_first());
                    assert(key_views(cks.drop_first()) =~= cak.drop_first());
                    assert(self.vals_view() =~= cav.drop_first());
                    if cbk.len() > 0 {
                        assert(lex_le(cak[0], cbk[0]));
                    }
                    assert(merged(cak, cav, cbk, cbv).0 =~= seq![cak[0]] + merged(
                        cak.drop_first(),
                        cav.drop_first(),
                        cbk,
                        cbv,
                    ).0);
                    assert(merged(cak, cav, cbk, cbv).1 =~= seq![cav[0]] + merged(
                        cak.drop_first(),
                        cav.drop_first(),
                        cbk,
                        cbv,
                    ).1);
                }
                let ghost nks = nk@;
                let ghost nvs = nv@;
                nk.push(k);
                nv.push(v);
                proof {
                    assert(key_views(nk@) =~= key_views(nks).push(cak[0]));
                    assert(key_views(nks).push(cak[0]) + merged(
                        cak.drop_first(),
                        cav.drop_first(),
                        cbk,
                        cbv,
                    ).0 =~= key_views(nks) + (seq![cak[0]] + merged(
                        cak.drop_first(),
                        cav.drop_first(),
                        cbk,
                        cbv,
                    ).0));
                    assert(nv@ + merged(
                        cak.drop_first(),
                        cav.drop_first(),
                        cbk,
                        cbv,
                    ).1 =~= nvs + (seq![cav[0]] + merged(
                        cak.drop_first(),
                        cav.drop_first(),
                        cbk,
                        cbv,
                    ).1));
                }
            } else {
                let ghost cks = other.keys@;
                let k = other.keys.remove(0);
                let v = other.values.remove(0);
                proof {
                    assert(other.keys@ =~= cks.drop_first());
                    assert(key_views(cks.drop_first()) =~= cbk.drop_first());
                    assert(other.vals_view() =~= cbv.drop_first());
                    if cak.len() > 0 {
                        assert(!lex_le(cak[0], cbk[0]));
                    }
                    assert(merged(cak, cav, cbk, cbv).0 =~= seq![cbk[0]] + merged(
                        cak,
                        cav,
                        cbk.drop_first(),
                        cbv.drop_first(),
                    ).0);
                    assert(merged(cak, cav, cbk, cbv).1 =~= seq![cbv[0]] + merged(
                        cak,
                        cav,
                        cbk.drop_first(),
                        cbv.drop_first(),
                    ).1);
                }
                let ghost nks = nk@;
                let ghost nvs = nv@;
                nk.push(k);
                nv.push(v);
                proof {
                    assert(key_views(nk@) =~= key_views(nks).push(cbk[0]));
                    assert(key_views(nks).push(cbk[0]) + merged(
                        cak,
                        cav,
                        cbk.drop_first(),
                        cbv.drop_first(),
                    ).0 =~= key_views(nks) + (seq![cbk[0]] + merged(
                        cak,
                        cav,
                        cbk.drop_first(),
                        cbv.drop_first(),
                    ).0));
                    assert(nv@ + merged(
                        cak,
                        cav,
                        cbk.drop_first(),
                        cbv.drop_first(),
                    ).1 =~= nvs + (seq![cbv[0]] + merged(
                        cak,
                        cav,
                        cbk.drop_first(),
                        cbv.drop_first(),
                    ).1));
                }
            }
        }
        proof {
            assert(key_views(nk@) + merged(
                self.keys_view(),
                self.vals_view(),
                other.keys_view(),
                other.vals_view(),
            ).0 =~= key_views(nk@));
            assert(nv@ + merged(
                self.keys_view(),
                self.vals_view(),
                other.keys_view(),
                other.vals_view(),
            ).1 =~= nv@);
        }
        self.keys = nk;
        self.values = nv;
        proof {
            lemma_merged_len(ak0, av0, bk0, bv0);
            assert(sorted_le(ak0));
            assert(sorted_le(bk0));
            lemma_merged_sorted(ak0, av0, bk0, bv0);
        }
    }

    /// A single lookup producing a handle: `Occupied` at the key's position,
    /// or `Vacant` carrying the key and its sorted insertion position, so the
    /// caller can insert, replace or inspect without a second search.
    pub fn entry<'a>(&'a mut self, key: String) -> (e: Entry<'a>)
        requires
            old(self).wf(),
        ensures
            e.wf(),
            e.key_view() == key@,
            match e {
                Entry::Occupied(o) => {
                    &&& old(self).spec_contains_key(key@)
                    &&& key_views((*o.keys)@) == old(self).keys_view()
                    &&& (*o.values)@ == old(self).vals_view()
                    &&& o.idx < old(self).spec_len()
                    &&& o.idx == old(self).spec_index_of(key@)
                    &&& final(self).keys_view() == key_views(final(o.keys)@)
                    &&& final(self).vals_view() == final(o.values)@
                },
                Entry::Vacant(v) => {
                    &&& !old(self).spec_contains_key(key@)
                    &&& v.key == key
                    &&& key_views((*v.keys)@) == old(self).keys_view()
                    &&& (*v.values)@ == old(self).vals_view()
                    &&& v.idx <= old(self).spec_len()
                    &&& final(self).keys_view() == key_views(final(v.keys)@)
                    &&& final(self).vals_view() == final(v.values)@
                },
            },
    {
        let ghost kv = self.keys_view();
        let ghost vv = self.vals_view();
        match self.get_index_for_key(key.as_str()) {
            Ok(i) => {
                proof {
                    lemma_map_found(kv, vv, key@, i as int);
                }
                Entry::Occupied(OccupiedEntry { idx: i, keys: &mut self.keys, values: &mut self.values })
            },
            Err(i) => {
                proof {
                    lemma_map_absent(kv, vv, key@, i as int);
                }
                Entry::Vacant(VacantEntry { idx: i, key, keys: &mut self.keys, values: &mut self.values })
            },
        }
    }

    /// A borrowed traversal over the pairs, front to back in key order.
    pub fn iter<'a>(&'a self) -> (it: Iter<'a>)
        requires
            self.wf(),
        ensures
            it.wf(),
            it.kv() == self.keys_view(),
            it.vv() == self.vals_view(),
            it.front_at() == 0,
            it.back_at() == self.spec_len(),
    {
        Iter { keys: &self.keys, values: &self.values, front: 0, back: self.keys.len() }
    }

    /// A shared view of the key vector, in sorted order.
    pub fn keys(&self) -> (r: &Vec<String>)
        ensures
            r@.len() == self.spec_len(),
            forall|i: int| 0 <= i < r@.len() ==> r@[i]@ == self.keys_view()[i],
    {
        &self.keys
    }

    /// A shared view of the value vector, aligned with `keys`.
    pub fn values(&self) -> (r: &Vec<Value>)
        ensures
            r@ == self.vals_view(),
    {
        &self.values
    }
}

/// A vacant entry: the searched-for key is absent. It holds the pending key
/// and the key's sorted insertion position, together with mutable references
/// into the owning object's two vectors (public so that contracts can speak
/// of them; every method requires the entry to be well-formed).
pub struct VacantEntry<'a> {
    pub keys: &'a mut Vec<String>,
    pub values: &'a mut Vec<Value>,
    pub key: String,
    pub idx: usize,
}

impl<'a> VacantEntry<'a> {
    /// Entry-time well-formedness: the vectors form a well-formed map and
    /// `idx` is the pending key's sorted insertion position.
    pub open spec fn wf(self) -> bool {
        &&& map_wf(key_views((*self.keys)@), (*self.values)@)
        &&& self.idx <= (*self.keys)@.len()
        &&& forall|j: int| 0 <= j < self.idx ==> lex_lt(key_views((*self.keys)@)[j], self.key@)
        &&& forall|j: int|
            self.idx <= j < (*self.keys)@.len() ==> lex_lt(self.key@, key_views((*self.keys)@)[j])
    }

    /// Borrows the pending key.
    pub fn key(&self) -> (r: &String)
        ensures
            r@ == self.key@,
    {
        &self.key
    }

    /// Performs the deferred insert at the pre-computed position and returns
    /// a mutable reference to the newly stored value.
    pub fn insert(self, value: Value) -> (r: &'a mut Value)
        requires
            self.wf(),
        ensures
            *r == value,
            final(self.keys)@ == old(self.keys)@.insert(self.idx as int, self.key),
            final(self.values)@ == old(self.values)@.insert(self.idx as int, *final(r)),
            map_wf(key_views(final(self.keys)@), final(self.values)@),
            key_views(final(self.keys)@).len() == key_views(old(self.keys)@).len() + 1,
            map_get(key_views(final(self.keys)@), final(self.values)@, self.key@) == Some(
                *final(r),
            ),
            forall|k2: Seq<char>|
                k2 != self.key@ ==> map_get(key_views(final(self.keys)@), final(self.values)@, k2)
                    == map_get(key_views(old(self.keys)@), old(self.values)@, k2),
    {
        let VacantEntry { keys, values, key, idx } = self;
        let ghost kv = key_views((*keys)@);
        let ghost vv = (*values)@;
        let ghost kc = key@;
        let ghost k0 = key;
        keys.insert(idx, key);
        values.insert(idx, value);
        proof {
            lemma_key_views_insert(old(self.keys)@, idx as int, k0);
            lemma_sorted_insert(kv, idx as int, kc);
            vv.insert_ensures(idx as int, value);
        }
        let r = vstd::std_specs::vec::vec_index_mut(values, idx);
        proof {
            vv.insert_ensures(idx as int, value);
            vv.insert_ensures(idx as int, *final(r));
            assert(vv.insert(idx as int, value).update(idx as int, *final(r)) =~= vv.insert(
                idx as int,
                *final(r),
            ));
            lemma_map_found(kv.insert(idx as int, kc), vv.insert(idx as int, *final(r)), kc, idx as int);
            assert forall|k2: Seq<char>| k2 != kc implies map_get(
                kv.insert(idx as int, kc),
                vv.insert(idx as int, *final(r)),
                k2,
            ) == map_get(kv, vv, k2) by {
                lemma_map_get_insert_other(kv, vv, idx as int, kc, *final(r), k2);
            }
        }
        r
    }
}

/// An occupied entry: the searched-for key sits at position `idx` of the
/// owning object's vectors (public so that contracts can speak of them;
/// every method requires the entry to be well-formed).
pub struct OccupiedEntry<'a> {
    pub keys: &'a mut Vec<String>,
    pub values: &'a mut Vec<Value>,
    pub idx: usize,
}

impl<'a> OccupiedEntry<'a> {
    /// Entry-time well-formedness: the vectors form a well-formed map and
    /// `idx` is in bounds.
    pub open spec fn wf(self) -> bool {
        map_wf(key_views((*self.keys)@), (*self.values)@) && self.idx < (*self.keys)@.len()
    }

    /// The resolved key, as a character sequence.
    pub open spec fn key_view(self) -> Seq<char> {
        key_views((*self.keys)@)[self.idx as int]
    }

    /// Borrows the resolved key.
    pub fn key(&self) -> (r: &String)
        requires
            self.wf(),
        ensures
            r@ == self.key_view(),
    {
        &self.keys[self.idx]
    }

    /// Borrows the existing value.
    pub fn get(&self) -> (r: &Value)
        requires
            self.wf(),
        ensures
            *r == old(self.values)@[self.idx as int],
    {
        &self.values[self.idx]
    }

    /// Consumes the handle, extending the borrow: a mutable reference to the
    /// existing value.
    pub fn into_mut(self) -> (r: &'a mut Value)
        requires
            self.wf(),
        ensures
            *r == old(self.values)@[self.idx as int],
            *final(self.keys) == *old(self.keys),
            final(self.values)@ == old(self.values)@.update(self.idx as int, *final(r)),
            map_wf(key_views(final(self.keys)@), final(self.values)@),
            map_get(key_views(final(self.keys)@), final(self.values)@, self.key_view()) == Some(
                *final(r),
            ),
            forall|k2: Seq<char>|
                k2 != self.key_view() ==> map_get(
                    key_views(final(self.keys)@),
                    final(self.values)@,
                    k2,
                ) == map_get(key_views(old(self.keys)@), old(self.values)@, k2),
    {
        let OccupiedEntry { keys: _, values, idx } = self;
        let ghost kv = key_views((*self.keys)@);
        let ghost vv = (*values)@;
        let r = vstd::std_specs::vec::vec_index_mut(values, idx);
        proof {
            lemma_map_found(kv, vv.update(idx as int, *final(r)), kv[idx as int], idx as int);
            assert forall|k2: Seq<char>| k2 != kv[idx as int] implies map_get(
                kv,
                vv.update(idx as int, *final(r)),
                k2,
            ) == map_get(kv, vv, k2) by {
                lemma_map_get_update_other(kv, vv, idx as int, *final(r), k2);
            }
        }
        r
    }

    /// Replaces the existing value in place, returning the prior one.
    pub fn insert(self, value: Value) -> (r: Value)
        requires
            self.wf(),
        ensures
            r == old(self.values)@[self.idx as int],
            *final(self.keys) == *old(self.keys),
            final(self.values)@ == old(self.values)@.update(self.idx as int, value),
    {
        let OccupiedEntry { keys: _, values, idx } = self;
        let ghost vv = values@;
        let prev = values.remove(idx);
        values.insert(idx, value);
        proof {
            assert(final(values)@ =~= vv.update(idx as int, value));
        }
        prev
    }

    /// Removes the resolved pair from both vectors, returning the value.
    pub fn remove(self) -> (r: Value)
        requires
            self.wf(),
        ensures
            r == old(self.values)@[self.idx as int],
            final(self.keys)@ == old(self.keys)@.remove(self.idx as int),
            final(self.values)@ == old(self.values)@.remove(self.idx as int),
            map_wf(key_views(final(self.keys)@), final(self.values)@),
            !map_has(key_views(final(self.keys)@), self.key_view()),
            forall|k2: Seq<char>|
                k2 != self.key_view() ==> map_get(
                    key_views(final(self.keys)@),
                    final(self.values)@,
                    k2,
                ) == map_get(key_views(old(self.keys)@), old(self.values)@, k2),
    {
        let OccupiedEntry { keys, values, idx } = self;
        let ghost kv = key_views(keys@);
        let ghost vv = values@;
        let ghost kc = kv[idx as int];
        keys.remove(idx);
        let prev = values.remove(idx);
        proof {
            lemma_key_views_remove(old(self.keys)@, idx as int);
            kv.remove_ensures(idx as int);
            lemma_sorted_remove(kv, idx as int);
            assert forall|j: int| 0 <= j < kv.remove(idx as int).len() implies kv.remove(
                idx as int,
            )[j] != kc by {
                if j < idx as int {
                    if kv[j] == kc {
                        lemma_map_found(kv, vv, kc, j);
                        lemma_map_found(kv, vv, kc, idx as int);
                    }
                } else {
                    if kv[j + 1] == kc {
                        lemma_map_found(kv, vv, kc, j + 1);
                        lemma_map_found(kv, vv, kc, idx as int);
                    }
                }
            }
            assert forall|k2: Seq<char>| k2 != kc implies map_get(
                kv.remove(idx as int),
                vv.remove(idx as int),
                k2,
            ) == map_get(kv, vv, k2) by {
                lemma_map_get_remove_other(kv, vv, idx as int, k2);
            }
        }
        prev
    }
}

/// A two-variant handle produced by a single lookup: either the key's
/// position, or the position at which it belongs.
pub enum Entry<'a> {
    Vacant(VacantEntry<'a>),
    Occupied(OccupiedEntry<'a>),
}

impl<'a> Entry<'a> {
    pub open spec fn wf(self) -> bool {
        match self {
            Entry::Vacant(e) => e.wf(),
            Entry::Occupied(e) => e.wf(),
        }
    }

    /// The key this entry resolved.
    pub open spec fn key_view(self) -> Seq<char> {
        match self {
            Entry::Vacant(e) => e.key@,
            Entry::Occupied(e) => e.key_view(),
        }
    }

    /// Borrows the pending or resolved key.
    pub fn key(&self) -> (r: &String)
        requires
            self.wf(),
        ensures
            r@ == self.key_view(),
    {
        match self {
            Entry::Vacant(e) => e.key(),
            Entry::Occupied(e) => e.key(),
        }
    }

    /// Inserts `default` when vacant; either way a mutable reference to the
    /// stored value. The map afterwards holds the entry's key, bound to
    /// whatever the caller leaves in the returned reference; every other
    /// binding is untouched.
    pub fn or_insert(self, default: Value) -> (r: &'a mut Value)
        requires
            self.wf(),
        ensures
            match self {
                Entry::Vacant(e) => {
                    &&& *r == default
                    &&& final(e.keys)@ == (*e.keys)@.insert(e.idx as int, e.key)
                    &&& final(e.values)@ == (*e.values)@.insert(e.idx as int, *final(r))
                    &&& map_wf(key_views(final(e.keys)@), final(e.values)@)
                    &&& key_views(final(e.keys)@).len() == key_views((*e.keys)@).len() + 1
                    &&& map_get(key_views(final(e.keys)@), final(e.values)@, e.key@) == Some(
                        *final(r),
                    )
                    &&& forall|k2: Seq<char>|
                        k2 != e.key@ ==> map_get(key_views(final(e.keys)@), final(e.values)@, k2)
                            == map_get(key_views((*e.keys)@), (*e.values)@, k2)
                },
                Entry::Occupied(e) => {
                    &&& *r == (*e.values)@[e.idx as int]
                    &&& *final(e.keys) == *e.keys
                    &&& final(e.values)@ == (*e.values)@.update(e.idx as int, *final(r))
                    &&& map_wf(key_views(final(e.keys)@), final(e.values)@)
                    &&& map_get(key_views(final(e.keys)@), final(e.values)@, e.key_view()) == Some(
                        *final(r),
                    )
                    &&& forall|k2: Seq<char>|
                        k2 != e.key_view() ==> map_get(
                            key_views(final(e.keys)@),
                            final(e.values)@,
                            k2,
                        ) == map_get(key_views((*e.keys)@), (*e.values)@, k2)
                },
            },
    {
        match self {
            Entry::Vacant(e) => e.insert(default),
            Entry::Occupied(e) => e.into_mut(),
        }
    }

    /// As `or_insert`, but the default is produced lazily: the closure runs
    /// only in the vacant case.
    pub fn or_insert_with<F: FnOnce() -> Value>(self, default: F) -> (r: &'a mut Value)
        requires
            self.wf(),
            self is Vacant ==> call_requires(default, ()),
        ensures
            match self {
                Entry::Vacant(e) => {
                    &&& exists|d: Value| call_ensures(default, (), d) && *r == d
                    &&& final(e.keys)@ == (*e.keys)@.insert(e.idx as int, e.key)
                    &&& final(e.values)@ == (*e.values)@.insert(e.idx as int, *final(r))
                    &&& map_wf(key_views(final(e.keys)@), final(e.values)@)
                    &&& key_views(final(e.keys)@).len() == key_views((*e.keys)@).len() + 1
                    &&& map_get(key_views(final(e.keys)@), final(e.values)@, e.key@) == Some(
                        *final(r),
                    )
                    &&& forall|k2: Seq<char>|
                        k2 != e.key@ ==> map_get(key_views(final(e.keys)@), final(e.values)@, k2)
                            == map_get(key_views((*e.keys)@), (*e.values)@, k2)
                },
                Entry::Occupied(e) => {
                    &&& *r == (*e.values)@[e.idx as int]
                    &&& *final(e.keys) == *e.keys
                    &&& final(e.values)@ == (*e.values)@.update(e.idx as int, *final(r))
                    &&& map_wf(key_views(final(e.keys)@), final(e.values)@)
                    &&& map_get(key_views(final(e.keys)@), final(e.values)@, e.key_view()) == Some(
                        *final(r),
                    )
                    &&& forall|k2: Seq<char>|
                        k2 != e.key_view() ==> map_get(
                            key_views(final(e.keys)@),
                            final(e.values)@,
                            k2,
                        ) == map_get(key_views((*e.keys)@), (*e.values)@, k2)
                },
            },
    {
        match self {
            Entry::Vacant(e) => e.insert(default()),
            Entry::Occupied(e) => e.into_mut(),
        }
    }
}

/// A double-ended, fused traversal of an object's pairs: positions `front`
/// (inclusive) to `back` (exclusive) are still to be yielded.
pub struct Iter<'a> {
    keys: &'a Vec<String>,
    values: &'a Vec<Value>,
    front: usize,
    back: usize,
}

impl<'a> Iter<'a> {
    /// The keys of the traversed object.
    pub closed spec fn kv(self) -> Seq<Seq<char>> {
        key_views(self.keys@)
    }

    /// The values of the traversed object.
    pub closed spec fn vv(self) -> Seq<Value> {
        self.values@
    }

    pub closed spec fn front_at(self) -> int {
        self.front as int
    }

    pub closed spec fn back_at(self) -> int {
        self.back as int
    }

    pub open spec fn wf(self) -> bool {
        0 <= self.front_at() <= self.back_at() <= self.kv().len() && self.vv().len()
            == self.kv().len()
    }

    /// The next pair from the front; `None` once exhausted, and every later
    /// call keeps returning `None`.
    pub fn next(&mut self) -> (r: Option<(&'a String, &'a Value)>)
        requires
            old(self).wf(),
        ensures
            final(self).wf(),
            final(self).kv() == old(self).kv(),
            final(self).vv() == old(self).vv(),
            final(self).back_at() == old(self).back_at(),
            if old(self).front_at() < old(self).back_at() {
                &&& final(self).front_at() == old(self).front_at() + 1
                &&& match r {
                    Some(p) => p.0@ == old(self).kv()[old(self).front_at()] && *p.1 == old(
                        self,
                    ).vv()[old(self).front_at()],
                    None => false,
                }
            } else {
                r is None && final(self).front_at() == old(self).front_at()
            },
    {
        if self.front < self.back {
            let ks = self.keys;
            let vs = self.values;
            let i = self.front;
            self.front = self.front + 1;
            Some((&ks[i], &vs[i]))
        } else {
            None
        }
    }

    /// The next pair from the back; `None` once exhausted, and every later
    /// call keeps returning `None`.
    pub fn next_back(&mut self) -> (r: Option<(&'a String, &'a Value)>)
        requires
            old(self).wf(),
        ensures
            final(self).wf(),
            final(self).kv() == old(self).kv(),
            final(self).vv() == old(self).vv(),
            final(self).front_at() == old(self).front_at(),
            if old(self).front_at() < old(self).back_at() {
                &&& final(self).back_at() == old(self).back_at() - 1
                &&& match r {
                    Some(p) => p.0@ == old(self).kv()[old(self).back_at() - 1] && *p.1 == old(
                        self,
                    ).vv()[old(self).back_at() - 1],
                    None => false,
                }
            } else {
                r is None && final(self).back_at() == old(self).back_at()
            },
    {
        if self.front < self.back {
            let ks = self.keys;
            let vs = self.values;
            let i = self.back - 1;
            self.back = i;
            Some((&ks[i], &vs[i]))
        } else {
            None
        }
    }

    /// How many pairs are still to be yielded.
    pub fn remaining(&self) -> (r: usize)
        requires
            self.wf(),
        ensures
            r == self.back_at() - self.front_at(),
    {
        self.back - self.front
    }
}

impl Object {
    /// Raw positional mutation of the value side. The keys are untouched, so
    /// in-place changes keep the map well-formed as long as the vector's
    /// length is preserved.
    pub fn values_mut(&mut self) -> (r: &mut Vec<Value>)
        ensures
            (*r)@ == old(self).vals_view(),
            final(self).keys_view() == old(self).keys_view(),
            final(self).vals_view() == final(r)@,
            old(self).wf() && final(r)@.len() == old(self).vals_view().len() ==> final(self).wf(),
    {
        &mut self.values
    }
}

impl Default for Object {
    /// The default map is empty.
    fn default() -> (r: Self)
        ensures
            r.wf(),
            r.spec_len() == 0,
    {
        Object::new()
    }
}


/// Merging sorted maps with disjoint key sets keeps the keys strictly
/// increasing.
pub proof fn lemma_merged_strict(
    ak: Seq<Seq<char>>,
    av: Seq<Value>,
    bk: Seq<Seq<char>>,
    bv: Seq<Value>,
)
    requires
        sorted_strict(ak),
        sorted_strict(bk),
        forall|i: int, j: int| 0 <= i < ak.len() && 0 <= j < bk.len() ==> ak[i] != bk[j],
    ensures
        sorted_strict(merged(ak, av, bk, bv).0),
    decreases ak.len() + bk.len(),
{
    let m = merged(ak, av, bk, bv).0;
    if ak.len() == 0 || bk.len() == 0 {
    } else {
        let take_a = lex_le(ak[0], bk[0]);
        let head = if take_a {
            ak[0]
        } else {
            bk[0]
        };
        let rest = if take_a {
            merged(ak.drop_first(), av.drop_first(), bk, bv).0
        } else {
            merged(ak, av, bk.drop_first(), bv.drop_first()).0
        };
        assert(m == seq![head] + rest);
        lemma_lex_lt_total(ak[0], bk[0]);
        if take_a {
            lemma_merged_strict(ak.drop_first(), av.drop_first(), bk, bv);
            assert(sorted_le(ak.drop_first()));
            assert(sorted_le(bk));
            lemma_merged_sorted(ak.drop_first(), av.drop_first(), bk, bv);
        } else {
            lemma_merged_strict(ak, av, bk.drop_first(), bv.drop_first());
            assert(sorted_le(ak));
            assert(sorted_le(bk.drop_first()));
            lemma_merged_sorted(ak, av, bk.drop_first(), bv.drop_first());
        }
        assert forall|q: int| 0 < q < m.len() implies lex_lt(m[0], m[q]) by {
            assert(m[q] == rest[q - 1]);
            if take_a {
                assert(from_either(rest[q - 1], ak.drop_first(), bk));
                if exists|j: int| 0 <= j < ak.drop_first().len() && rest[q - 1]
                    == ak.drop_first()[j] {
                    let j = choose|j: int|
                        0 <= j < ak.drop_first().len() && rest[q - 1] == ak.drop_first()[j];
                    assert(ak.drop_first()[j] == ak[j + 1]);
                } else {
                    let j = choose|j: int| 0 <= j < bk.len() && rest[q - 1] == bk[j];
                    assert(lex_lt(ak[0], bk[0]));
                    if j > 0 {
                        lemma_lex_lt_le_trans(ak[0], bk[0], bk[j]);
                    }
                }
            } else {
                assert(from_either(rest[q - 1], ak, bk.drop_first()));
                if exists|j: int| 0 <= j < ak.len() && rest[q - 1] == ak[j] {
                    let j = choose|j: int| 0 <= j < ak.len() && rest[q - 1] == ak[j];
                    assert(lex_lt(bk[0], ak[0]));
                    if j > 0 {
                        lemma_lex_lt_le_trans(bk[0], ak[0], ak[j]);
                    }
                } else {
                    let j = choose|j: int|
                        0 <= j < bk.drop_first().len() && rest[q - 1] == bk.drop_first()[j];
                    assert(bk.drop_first()[j] == bk[j + 1]);
                }
            }
        }
        assert forall|p: int, q: int| 0 <= p < q < m.len() implies lex_lt(m[p], m[q]) by {
            if p > 0 {
                assert(m[p] == rest[p - 1] && m[q] == rest[q - 1]);
            }
        }
    }
}

/// Law: appending two well-formed maps with disjoint key sets yields a
/// well-formed map again — the merged keys stay strictly increasing and the
/// value sequence stays aligned.
pub proof fn lemma_append_disjoint_wf(a: Object, b: Object, c: Object)
    requires
        a.wf(),
        b.wf(),
        forall|i: int, j: int|
            0 <= i < a.spec_len() && 0 <= j < b.spec_len() ==> a.keys_view()[i]
                != b.keys_view()[j],
        c.keys_view() == merged(a.keys_view(), a.vals_view(), b.keys_view(), b.vals_view()).0,
        c.vals_view() == merged(a.keys_view(), a.vals_view(), b.keys_view(), b.vals_view()).1,
    ensures
        c.wf(),
{
    lemma_merged_strict(a.keys_view(), a.vals_view(), b.keys_view(), b.vals_view());
    lemma_merged_len(a.keys_view(), a.vals_view(), b.keys_view(), b.vals_view());
}

/// Law: inserting under one key and then inserting under it again — the
/// second call returns the first value, afterwards the key is bound to the
/// second value and held at exactly one position, and every other binding is
/// as it was before either insert.
pub proof fn lemma_insert_insert(
    m0: Object,
    m1: Object,
    m2: Object,
    k: Seq<char>,
    v1: Value,
    v2: Value,
    r1: Option<Value>,
    r2: Option<Value>,
)
    requires
        m0.wf(),
        m1.wf(),
        m2.wf(),
        r1 == m0.spec_get(k),
        m1.spec_get(k) == Some(v1),
        forall|k2: Seq<char>| k2 != k ==> m1.spec_get(k2) == m0.spec_get(k2),
        r2 == m1.spec_get(k),
        m2.spec_get(k) == Some(v2),
        forall|k2: Seq<char>| k2 != k ==> m2.spec_get(k2) == m1.spec_get(k2),
    ensures
        r2 == Some(v1),
        m2.spec_get(k) == Some(v2),
        forall|i: int|
            0 <= i < m2.keys_view().len() && m2.keys_view()[i] == k ==> i == map_at(
                m2.keys_view(),
                k,
            ),
        forall|k2: Seq<char>| k2 != k ==> m2.spec_get(k2) == m0.spec_get(k2),
{
    assert forall|i: int|
        0 <= i < m2.keys_view().len() && m2.keys_view()[i] == k implies i == map_at(
        m2.keys_view(),
        k,
    ) by {
        lemma_map_found(m2.keys_view(), m2.vals_view(), k, i);
    }
}

/// Law: removing a key right after inserting it returns the inserted value
/// and leaves the key absent, with every other binding as it was before the
/// insert; removing an absent key returns `None` and leaves the map as it
/// was.
pub proof fn lemma_insert_remove(
    m0: Object,
    m1: Object,
    m2: Object,
    k: Seq<char>,
    v: Value,
    r2: Option<Value>,
)
    requires
        m0.wf(),
        m1.wf(),
        m2.wf(),
        m1.spec_get(k) == Some(v),
        forall|k2: Seq<char>| k2 != k ==> m1.spec_get(k2) == m0.spec_get(k2),
        r2 == m1.spec_get(k),
        !m2.spec_contains_key(k),
        forall|k2: Seq<char>| k2 != k ==> m2.spec_get(k2) == m1.spec_get(k2),
    ensures
        r2 == Some(v),
        m2.spec_get(k) is None,
        forall|k2: Seq<char>| k2 != k ==> m2.spec_get(k2) == m0.spec_get(k2),
{
}

/// Law: a second get-or-insert on the same key finds it occupied — it
/// returns exactly the value the map already holds, and when the caller only
/// reads through the returned reference the value sequence is unchanged, so
/// the second default is never stored.
pub proof fn lemma_or_insert_again(
    kv: Seq<Seq<char>>,
    vv: Seq<Value>,
    k: Seq<char>,
    i: int,
    ret: Value,
    fin: Value,
    vv2: Seq<Value>,
)
    requires
        map_wf(kv, vv),
        0 <= i < kv.len(),
        kv[i] == k,
        ret == vv[i],
        vv2 == vv.update(i, fin),
        fin == ret,
    ensures
        map_get(kv, vv, k) == Some(ret),
        vv2 == vv,
        map_get(kv, vv2, k) == Some(ret),
{
    lemma_map_found(kv, vv, k, i);
    assert(vv2 =~= vv);
}

} // verus!
