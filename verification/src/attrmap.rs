//! An ordered string-keyed map for unrecognized cookie attributes.
//!
//! Entries are held sorted by key in strictly ascending lexicographic
//! order (the order `String` comparison gives), so formatting emits
//! custom attributes in ascending key order and inserting an existing
//! key replaces its value.

use vstd::prelude::*;
use vstd::string::*;

verus! {

/// Strict lexicographic order on character sequences, by code point;
/// the order that `String` comparison gives.
pub open spec fn lex_lt(a: Seq<char>, b: Seq<char>) -> bool
    decreases a.len(),
{
    if b.len() == 0 {
        false
    } else if a.len() == 0 {
        true
    } else if (a[0] as int) < (b[0] as int) {
        true
    } else if a[0] == b[0] {
        lex_lt(a.drop_first(), b.drop_first())
    } else {
        false
    }
}

pub proof fn lemma_lex_total(a: Seq<char>, b: Seq<char>)
    ensures
        a == b || lex_lt(a, b) || lex_lt(b, a),
        !(lex_lt(a, b) && lex_lt(b, a)),
        lex_lt(a, b) ==> a != b,
    decreases a.len(),
{
    if a.len() == 0 && b.len() == 0 {
        assert(a =~= b);
    } else if a.len() > 0 && b.len() > 0 {
        if a[0] == b[0] {
            lemma_lex_total(a.drop_first(), b.drop_first());
            if a.drop_first() == b.drop_first() {
                assert forall|i: int| 0 <= i < a.len() implies a[i] == b[i] by {
                    if i > 0 {
                        assert(a[i] == a.drop_first()[i - 1]);
                        assert(b[i] == b.drop_first()[i - 1]);
                    }
                }
                assert(a =~= b);
            }
            if a == b {
                assert(a.drop_first() =~= b.drop_first());
            }
        }
    }
}

pub proof fn lemma_lex_trans(a: Seq<char>, b: Seq<char>, c: Seq<char>)
    requires
        lex_lt(a, b),
        lex_lt(b, c),
    ensures
        lex_lt(a, c),
    decreases a.len(),
{
    if a.len() > 0 {
        if a[0] == b[0] && b[0] == c[0] {
            lemma_lex_trans(a.drop_first(), b.drop_first(), c.drop_first());
        }
    }
}

/// Inserting into a key-sorted association sequence: replaces the value
/// of an existing key, else places the new pair at its ordered position.
pub open spec fn assoc_insert(
    m: Seq<(Seq<char>, Seq<char>)>,
    k: Seq<char>,
    v: Seq<char>,
) -> Seq<(Seq<char>, Seq<char>)>
    decreases m.len(),
{
    if m.len() == 0 {
        seq![(k, v)]
    } else if lex_lt(k, m[0].0) {
        seq![(k, v)] + m
    } else if k == m[0].0 {
        seq![(k, v)] + m.drop_first()
    } else {
        seq![m[0]] + assoc_insert(m.drop_first(), k, v)
    }
}

pub proof fn lemma_assoc_insert_at(
    m: Seq<(Seq<char>, Seq<char>)>,
    k: Seq<char>,
    v: Seq<char>,
    idx: int,
)
    requires
        0 <= idx <= m.len(),
        forall|j: int| 0 <= j < idx ==> lex_lt(#[trigger] m[j].0, k),
        idx < m.len() ==> !lex_lt(m[idx].0, k),
    ensures
        assoc_insert(m, k, v) == if idx < m.len() && m[idx].0 == k {
            m.update(idx, (k, v))
        } else {
            m.insert(idx, (k, v))
        },
    decreases idx,
{
    if idx == 0 {
        if m.len() == 0 {
            assert(assoc_insert(m, k, v) =~= m.insert(0, (k, v)));
        } else if m[0].0 == k {
            assert(seq![(k, v)] + m.drop_first() =~= m.update(0, (k, v)));
        } else {
            lemma_lex_total(k, m[0].0);
            assert(lex_lt(k, m[0].0));
            assert(seq![(k, v)] + m =~= m.insert(0, (k, v)));
        }
    } else {
        assert(lex_lt(m[0].0, k));
        lemma_lex_total(k, m[0].0);
        let t = m.drop_first();
        assert(forall|j: int| 0 <= j < idx - 1 ==> #[trigger] t[j].0 == m[j + 1].0);
        lemma_assoc_insert_at(t, k, v, idx - 1);
        if idx < m.len() && m[idx].0 == k {
            assert(t[idx - 1].0 == k);
            assert(seq![m[0]] + t.update(idx - 1, (k, v)) =~= m.update(idx, (k, v)));
        } else {
            assert(seq![m[0]] + t.insert(idx - 1, (k, v)) =~= m.insert(idx, (k, v)));
        }
    }
}

/// Keys strictly ascending: sortedness with no duplicate keys.
pub open spec fn sorted_keys(m: Seq<(Seq<char>, Seq<char>)>) -> bool {
    forall|i: int, j: int| 0 <= i < j < m.len() ==> lex_lt(#[trigger] m[i].0, #[trigger] m[j].0)
}

/// Tests whether `a` orders strictly before `b` as `String` comparison does.
pub fn str_lt(a: &str, b: &str) -> (r: bool)
    ensures
        r == lex_lt(a@, b@),
{
    let na = a.unicode_len();
    let nb = b.unicode_len();
    let mut i: usize = 0;
    proof {
        assert(a@.skip(0) =~= a@);
        assert(b@.skip(0) =~= b@);
    }
    loop
        invariant
            i <= na,
            i <= nb,
            na == a@.len(),
            nb == b@.len(),
            lex_lt(a@, b@) == lex_lt(a@.skip(i as int), b@.skip(i as int)),
        decreases na - i,
    {
        if i >= nb {
            return false;
        }
        if i >= na {
            return true;
        }
        let ca = a.get_char(i);
        let cb = b.get_char(i);
        if ca < cb {
            return true;
        }
        if cb < ca {
            return false;
        }
        proof {
            assert(a@.skip(i as int).drop_first() =~= a@.skip(i + 1));
            assert(b@.skip(i as int).drop_first() =~= b@.skip(i + 1));
        }
        i = i + 1;
    }
}

/// An ordered map from attribute name to attribute value.
#[derive(Clone, Debug)]
pub struct AttrMap {
    entries: Vec<(String, String)>,
}

impl View for AttrMap {
    type V = Seq<(Seq<char>, Seq<char>)>;

    closed spec fn view(&self) -> Seq<(Seq<char>, Seq<char>)> {
        Seq::new(self.entries@.len(), |i: int| (self.entries@[i].0@, self.entries@[i].1@))
    }
}

impl AttrMap {
    /// Keys strictly ascending: the invariant every method preserves.
    pub open spec fn wf(&self) -> bool {
        sorted_keys(self@)
    }

    /// Creates an empty map.
    pub fn new() -> (r: AttrMap)
        ensures
            r@ == Seq::<(Seq<char>, Seq<char>)>::empty(),
            r.wf(),
    {
        let r = AttrMap { entries: Vec::new() };
        proof {
            assert(r@ =~= Seq::<(Seq<char>, Seq<char>)>::empty());
        }
        r
    }

    /// The number of entries.
    pub fn len(&self) -> (n: usize)
        ensures
            n == self@.len(),
    {
        self.entries.len()
    }

    /// The entry at position `i`, in ascending key order.
    pub fn entry(&self, i: usize) -> (r: &(String, String))
        requires
            i < self@.len(),
        ensures
            r.0@ == self@[i as int].0,
            r.1@ == self@[i as int].1,
    {
        &self.entries[i]
    }

    /// Inserts a key/value pair, replacing the value of an existing key.
    pub fn insert(&mut self, k: String, v: String)
        requires
            old(self).wf(),
        ensures
            final(self).wf(),
            final(self)@ == assoc_insert(old(self)@, k@, v@),
    {
        let ghost m = old(self)@;
        let n = self.entries.len();
        let mut idx: usize = 0;
        let mut stop = false;
        while !stop
            invariant
                idx <= n,
                n == self@.len(),
                *self == *old(self),
                m == old(self)@,
                forall|j: int| 0 <= j < idx ==> lex_lt(#[trigger] m[j].0, k@),
                stop ==> (idx == n || !lex_lt(m[idx as int].0, k@)),
            decreases n - idx + (if stop { 0int } else { 1int }),
        {
            if idx < n {
                proof {
                    assert(self@ == m);
                    assert(self@[idx as int]
                        == (self.entries@[idx as int].0@, self.entries@[idx as int].1@));
                }
                if str_lt(&self.entries[idx].0, &k) {
                    idx = idx + 1;
                } else {
                    stop = true;
                }
            } else {
                stop = true;
            }
        }
        proof {
            lemma_assoc_insert_at(m, k@, v@, idx as int);
        }
        let hit = if idx < n {
            let e = &self.entries[idx];
            e.0 == k
        } else {
            false
        };
        if hit {
            self.entries.set(idx, (k, v));
            proof {
                assert(self@ =~= m.update(idx as int, (k@, v@)));
                assert forall|i: int, j: int| 0 <= i < j < self@.len() implies lex_lt(
                    #[trigger] self@[i].0,
                    #[trigger] self@[j].0,
                ) by {
                    assert(self@[i].0 == m[i].0);
                    assert(self@[j].0 == m[j].0);
                }
            }
        } else {
            self.entries.insert(idx, (k, v));
            proof {
                assert(self@ =~= m.insert(idx as int, (k@, v@)));
                if idx < m.len() {
                    lemma_lex_total(k@, m[idx as int].0);
                    assert(lex_lt(k@, m[idx as int].0));
                }
                assert forall|i: int, j: int| 0 <= i < j < self@.len() implies lex_lt(
                    #[trigger] self@[i].0,
                    #[trigger] self@[j].0,
                ) by {
                    if i < idx && j < idx {
                        assert(self@[i].0 == m[i].0);
                        assert(self@[j].0 == m[j].0);
                    } else if i < idx && j == idx {
                        assert(self@[i].0 == m[i].0);
                    } else if i < idx && j > idx {
                        assert(self@[i].0 == m[i].0);
                        assert(self@[j].0 == m[j - 1].0);
                    } else if i == idx && j > idx {
                        assert(self@[j].0 == m[j - 1].0);
                        if j - 1 > idx {
                            lemma_lex_trans(k@, m[idx as int].0, m[j - 1].0);
                        }
                    } else {
                        assert(self@[i].0 == m[i - 1].0);
                        assert(self@[j].0 == m[j - 1].0);
                    }
                }
            }
        }
    }
}

impl PartialEq for AttrMap {
    /// Structural equality: same keys and values in the same order.
    fn eq(&self, other: &AttrMap) -> (r: bool) {
        let n = self.entries.len();
        if n != other.entries.len() {
            proof {
                assert(self@.len() != other@.len());
            }
            return false;
        }
        let mut i: usize = 0;
        while i < n
            invariant
                i <= n,
                n == self@.len(),
                n == other@.len(),
                forall|j: int| 0 <= j < i ==> self@[j] == other@[j],
            decreases n - i,
        {
            let a = &self.entries[i];
            let b = &other.entries[i];
            if !(a.0 == b.0 && a.1 == b.1) {
                proof {
                    assert(self@[i as int] != other@[i as int]);
                }
                return false;
            }
            proof {
                assert(self@[i as int] == other@[i as int]);
            }
            i = i + 1;
        }
        proof {
            assert(self@ =~= other@);
        }
        true
    }
}

impl vstd::std_specs::cmp::PartialEqSpecImpl for AttrMap {
    open spec fn obeys_eq_spec() -> bool {
        true
    }

    open spec fn eq_spec(&self, other: &AttrMap) -> bool {
        self@ == other@
    }
}

} // verus!
