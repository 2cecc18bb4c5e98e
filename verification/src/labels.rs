//! Label sets: unique keys with a value each, kept in key order.

use crate::text;
use vstd::prelude::*;

verus! {

/// Whether the texts stand in strictly ascending lexicographic order.
pub open spec fn ascending(keys: Seq<Seq<char>>) -> bool {
    forall|i: int, j: int|
        0 <= i < j < keys.len() ==> text::lex_less(#[trigger] keys[i], #[trigger] keys[j])
}

/// A set of labels. Keys are unique and held in ascending order.
#[derive(Debug)]
pub struct Labels {
    keys: Vec<String>,
    values: Vec<String>,
}

impl View for Labels {
    type V = Map<Seq<char>, Seq<char>>;

    closed spec fn view(&self) -> Map<Seq<char>, Seq<char>> {
        Map::new(
            |k: Seq<char>| text::texts(self.keys@).contains(k),
            |k: Seq<char>| self.values@[text::texts(self.keys@).index_of(k)]@,
        )
    }
}

impl Default for Labels {
    fn default() -> (r: Labels)
        ensures
            r@ == Map::<Seq<char>, Seq<char>>::empty(),
    {
        Labels::new()
    }
}

impl Labels {
    #[verifier::type_invariant]
    spec fn well_formed(self) -> bool {
        &&& self.keys@.len() == self.values@.len()
        &&& ascending(text::texts(self.keys@))
    }

    /// The keys, in order.
    pub closed spec fn key_seq(&self) -> Seq<Seq<char>> {
        text::texts(self.keys@)
    }

    /// The empty label set.
    pub fn new() -> (r: Labels)
        ensures
            r@ == Map::<Seq<char>, Seq<char>>::empty(),
    {
        let r = Labels { keys: Vec::new(), values: Vec::new() };
        assert(r@ =~= Map::<Seq<char>, Seq<char>>::empty());
        r
    }

    /// The number of labels.
    pub fn len(&self) -> (r: usize)
        ensures
            r == self.key_seq().len(),
            ascending(self.key_seq()),
            forall|k: Seq<char>| #[trigger] self.key_seq().contains(k) <==> self@.dom().contains(k),
    {
        proof {
            use_type_invariant(self);
        }
        self.keys.len()
    }

    /// The key at position `i` in key order.
    pub fn key(&self, i: usize) -> (r: &String)
        requires
            i < self.key_seq().len(),
        ensures
            r@ == self.key_seq()[i as int],
    {
        &self.keys[i]
    }

    /// The value at position `i` in key order.
    pub fn value(&self, i: usize) -> (r: &String)
        requires
            i < self.key_seq().len(),
        ensures
            r@ == self@[self.key_seq()[i as int]],
    {
        proof {
            use_type_invariant(self);
            lemma_ascending_distinct(text::texts(self.keys@));
            let k = text::texts(self.keys@)[i as int];
            assert(text::texts(self.keys@).contains(k));
            assert(text::texts(self.keys@).index_of(k) == i);
        }
        &self.values[i]
    }

    /// The value of `key`, if the set holds it.
    pub fn get(&self, key: &str) -> (r: Option<&String>)
        ensures
            r is Some <==> self@.dom().contains(key@),
            r matches Some(v) ==> v@ == self@[key@],
    {
        proof {
            use_type_invariant(self);
            lemma_ascending_distinct(text::texts(self.keys@));
        }
        let mut i: usize = 0;
        while i < self.keys.len()
            invariant
                i <= self.keys@.len(),
                self.keys@.len() == self.values@.len(),
                text::texts(self.keys@).no_duplicates(),
                forall|j: int| 0 <= j < i ==> text::texts(self.keys@)[j] != key@,
            decreases self.keys@.len() - i,
        {
            if text::same(self.keys[i].as_str(), key) {
                assert(text::texts(self.keys@)[i as int] == key@);
                assert(text::texts(self.keys@).contains(key@));
                return Some(&self.values[i]);
            }
            i = i + 1;
        }
        None
    }

    /// Sets `key` to `value`, replacing what the key had before.
    pub fn insert(&mut self, key: String, value: String)
        ensures
            final(self)@ == old(self)@.insert(key@, value@),
    {
        proof {
            use_type_invariant(&*self);
            lemma_ascending_distinct(text::texts(self.keys@));
        }
        let mut keys: Vec<String> = Vec::new();
        let mut values: Vec<String> = Vec::new();
        let mut i: usize = 0;
        while i < self.keys.len() && text::precedes(self.keys[i].as_str(), key.as_str())
            invariant
                i <= self.keys@.len(),
                self.keys@.len() == self.values@.len(),
                keys@ == self.keys@.take(i as int),
                values@ == self.values@.take(i as int),
                forall|j: int| 0 <= j < i ==> text::lex_less(#[trigger] self.keys@[j]@, key@),
            decreases self.keys@.len() - i,
        {
            keys.push(self.keys[i].clone());
            values.push(self.values[i].clone());
            i = i + 1;
        }
        let ghost at = i as int;
        let mut next: usize = i;
        if i < self.keys.len() && text::same(self.keys[i].as_str(), key.as_str()) {
            next = i + 1;
        }
        let ghost from = next as int;
        keys.push(key);
        values.push(value);
        let ghost ks = keys@;
        let ghost vs = values@;
        assert(ks.take(at) =~= self.keys@.take(at));
        assert(vs.take(at) =~= self.values@.take(at));
        assert(keys@ =~= ks + self.keys@.subrange(from, next as int));
        assert(values@ =~= vs + self.values@.subrange(from, next as int));
        while next < self.keys.len()
            invariant
                0 <= at <= from <= next <= self.keys@.len(),
                from <= at + 1,
                self.keys@.len() == self.values@.len(),
                ks.len() == at + 1,
                vs.len() == at + 1,
                keys@ == ks + self.keys@.subrange(from, next as int),
                values@ == vs + self.values@.subrange(from, next as int),
            decreases self.keys@.len() - next,
        {
            keys.push(self.keys[next].clone());
            values.push(self.values[next].clone());
            next = next + 1;
            assert(keys@ =~= ks + self.keys@.subrange(from, next as int));
            assert(values@ =~= vs + self.values@.subrange(from, next as int));
        }
        proof {
            assert(keys@.take(at) =~= ks.take(at));
            assert(values@.take(at) =~= vs.take(at));
            assert(keys@.skip(at + 1) =~= self.keys@.skip(from));
            assert(values@.skip(at + 1) =~= self.values@.skip(from));
            lemma_inserted(self.keys@, self.values@, keys@, values@, at, from, key@, value@);
        }
        let ghost before = self@;
        *self = Labels { keys, values };
        assert(self@ =~= before.insert(key@, value@));
    }

    /// Takes over every label of `other`, whose values win.
    pub fn overlay(&mut self, other: &Labels)
        ensures
            final(self)@ == old(self)@.union_prefer_right(other@),
    {
        let n: usize = other.len();
        let mut i: usize = 0;
        let ghost start = self@;
        let ghost ks = other.key_seq();
        assert(ks.take(0) =~= Seq::<Seq<char>>::empty());
        assert(self@ =~= start.union_prefer_right(other@.restrict(ks.take(0).to_set())));
        while i < n
            invariant
                i <= n,
                n == ks.len(),
                ks == other.key_seq(),
                forall|k: Seq<char>| #[trigger] ks.contains(k) <==> other@.dom().contains(k),
                self@ == start.union_prefer_right(other@.restrict(ks.take(i as int).to_set())),
            decreases n - i,
        {
            let ghost was = self@;
            self.insert(other.key(i).clone(), other.value(i).clone());
            proof {
                let done = ks.take(i as int);
                let more = ks.take(i + 1);
                assert(more =~= done.push(ks[i as int]));
                assert(ks.contains(ks[i as int]));
                assert forall|k: Seq<char>| #[trigger] more.to_set().contains(k) <==> (
                done.to_set().contains(k) || k == ks[i as int]) by {
                    if done.contains(k) {
                        let j = choose|j: int| 0 <= j < done.len() && done[j] == k;
                        assert(more[j] == k);
                    }
                    if k == ks[i as int] {
                        assert(more[i as int] == k);
                    }
                    if more.contains(k) && k != ks[i as int] {
                        let j = choose|j: int| 0 <= j < more.len() && more[j] == k;
                        assert(done[j] == k);
                    }
                }
                assert(self@ =~= start.union_prefer_right(other@.restrict(more.to_set())));
            }
            i = i + 1;
        }
        proof {
            assert(ks.take(i as int) =~= ks);
            assert(other@.restrict(ks.to_set()) =~= other@) by {
                assert forall|k: Seq<char>| other@.dom().contains(k) implies ks.to_set().contains(
                    k,
                ) by {
                    assert(ks.contains(k));
                }
            }
        }
    }

    /// A copy with the same labels.
    pub fn duplicate(&self) -> (r: Labels)
        ensures
            r@ == self@,
    {
        let mut r = Labels::new();
        r.overlay(self);
        assert(r@ =~= self@);
        r
    }
}

pub proof fn lemma_ascending_distinct(keys: Seq<Seq<char>>)
    requires
        ascending(keys),
    ensures
        keys.no_duplicates(),
{
    assert forall|i: int, j: int| 0 <= i < keys.len() && 0 <= j < keys.len() && i != j implies keys[i]
        != keys[j] by {
        text::lemma_lex_irreflexive(keys[i]);
        if i < j {
            assert(text::lex_less(keys[i], keys[j]));
        } else {
            assert(text::lex_less(keys[j], keys[i]));
        }
    }
}

/// An ascending sequence is determined by the set of its elements: a label schema has one
/// order only.
pub proof fn ascending_order_is_unique(a: Seq<Seq<char>>, b: Seq<Seq<char>>)
    requires
        ascending(a),
        ascending(b),
        forall|k: Seq<char>| #[trigger] a.contains(k) <==> b.contains(k),
    ensures
        a == b,
    decreases a.len(),
{
    if a.len() == 0 {
        if b.len() > 0 {
            assert(b.contains(b[0]));
            assert(a.contains(b[0]));
        }
        assert(a =~= b);
    } else {
        assert(a.contains(a[0]));
        assert(b.contains(a[0]));
        assert(b.contains(b[0]));
        assert(a.contains(b[0]));
        lemma_ascending_distinct(a);
        lemma_ascending_distinct(b);
        let i = choose|i: int| 0 <= i < a.len() && a[i] == b[0];
        let j = choose|j: int| 0 <= j < b.len() && b[j] == a[0];
        if i != 0 && j != 0 {
            assert(text::lex_less(a[0], a[i]));
            assert(text::lex_less(b[0], b[j]));
            text::lemma_lex_transitive(a[0], b[0], a[0]);
            text::lemma_lex_irreflexive(a[0]);
        }
        assert(a[0] == b[0]);
        let x = a.drop_first();
        let y = b.drop_first();
        assert forall|p: int, q: int| 0 <= p < q < x.len() implies text::lex_less(
            #[trigger] x[p],
            #[trigger] x[q],
        ) by {
            assert(text::lex_less(a[p + 1], a[q + 1]));
        }
        assert forall|p: int, q: int| 0 <= p < q < y.len() implies text::lex_less(
            #[trigger] y[p],
            #[trigger] y[q],
        ) by {
            assert(text::lex_less(b[p + 1], b[q + 1]));
        }
        assert forall|k: Seq<char>| #[trigger] x.contains(k) <==> y.contains(k) by {
            if x.contains(k) {
                let p = choose|p: int| 0 <= p < x.len() && x[p] == k;
                assert(a[p + 1] == k);
                assert(a.contains(k));
                let q = choose|q: int| 0 <= q < b.len() && b[q] == k;
                assert(q != 0);
                assert(y[q - 1] == k);
            }
            if y.contains(k) {
                let p = choose|p: int| 0 <= p < y.len() && y[p] == k;
                assert(b[p + 1] == k);
                assert(b.contains(k));
                assert(a.contains(k));
                let q = choose|q: int| 0 <= q < a.len() && a[q] == k;
                assert(q != 0);
                assert(x[q - 1] == k);
            }
        }
        ascending_order_is_unique(x, y);
        assert(a =~= seq![a[0]] + x);
        assert(b =~= seq![b[0]] + y);
    }
}

spec fn as_map(keys: Seq<String>, values: Seq<String>) -> Map<Seq<char>, Seq<char>> {
    Map::new(
        |k: Seq<char>| text::texts(keys).contains(k),
        |k: Seq<char>| values[text::texts(keys).index_of(k)]@,
    )
}

/// Putting a key at position `at` of an ascending key list, in place of an equal key if there
/// is one, keeps the list ascending and updates the map.
proof fn lemma_inserted(
    keys: Seq<String>,
    values: Seq<String>,
    new_keys: Seq<String>,
    new_values: Seq<String>,
    at: int,
    from: int,
    key: Seq<char>,
    value: Seq<char>,
)
    requires
        keys.len() == values.len(),
        ascending(text::texts(keys)),
        0 <= at <= from <= keys.len(),
        from == at || (from == at + 1 && keys[at]@ == key),
        forall|j: int| 0 <= j < at ==> text::lex_less(#[trigger] keys[j]@, key),
        from == at && at < keys.len() ==> !text::lex_less(keys[at]@, key) && keys[at]@ != key,
        new_keys.len() == at + 1 + keys.len() - from,
        new_values.len() == new_keys.len(),
        new_keys.take(at) == keys.take(at),
        new_values.take(at) == values.take(at),
        new_keys[at]@ == key,
        new_values[at]@ == value,
        new_keys.skip(at + 1) == keys.skip(from),
        new_values.skip(at + 1) == values.skip(from),
    ensures
        ascending(text::texts(new_keys)),
        as_map(new_keys, new_values) == as_map(keys, values).insert(key, value),
{
    let old_t = text::texts(keys);
    let new_t = text::texts(new_keys);
    let shift = from - at - 1;
    assert forall|j: int| 0 <= j < at implies #[trigger] new_keys[j] == keys[j] && new_values[j]
        == values[j] by {
        assert(new_keys[j] == new_keys.take(at)[j]);
        assert(keys[j] == keys.take(at)[j]);
        assert(new_values[j] == new_values.take(at)[j]);
        assert(values[j] == values.take(at)[j]);
    }
    assert forall|j: int| at < j < new_keys.len() implies #[trigger] new_keys[j] == keys[j + shift]
        && new_values[j] == values[j + shift] by {
        let k = j - at - 1;
        assert(new_keys[j] == new_keys.skip(at + 1)[k]);
        assert(keys[j + shift] == keys.skip(from)[k]);
        assert(new_values[j] == new_values.skip(at + 1)[k]);
        assert(values[j + shift] == values.skip(from)[k]);
    }
    assert forall|j: int| from <= j < keys.len() implies text::lex_less(key, #[trigger] keys[j]@) by {
        if from == at + 1 {
            assert(text::lex_less(old_t[at], old_t[j]));
        } else {
            text::lemma_lex_total(keys[at]@, key);
            if j > at {
                assert(text::lex_less(old_t[at], old_t[j]));
                text::lemma_lex_transitive(key, keys[at]@, keys[j]@);
            }
        }
    }
    assert forall|i: int, j: int| 0 <= i < j < new_t.len() implies text::lex_less(
        #[trigger] new_t[i],
        #[trigger] new_t[j],
    ) by {
        if j < at {
            assert(text::lex_less(old_t[i], old_t[j]));
        } else if j == at {
            assert(text::lex_less(keys[i]@, key));
        } else if i == at {
            assert(text::lex_less(key, keys[j + shift]@));
        } else if i > at {
            assert(text::lex_less(old_t[i + shift], old_t[j + shift]));
        } else {
            assert(text::lex_less(keys[i]@, key));
            assert(text::lex_less(key, keys[j + shift]@));
            text::lemma_lex_transitive(keys[i]@, key, keys[j + shift]@);
        }
    }
    lemma_ascending_distinct(old_t);
    lemma_ascending_distinct(new_t);
    let om = as_map(keys, values);
    let nm = as_map(new_keys, new_values);
    let want = om.insert(key, value);
    assert forall|k: Seq<char>| #[trigger] nm.dom().contains(k) <==> want.dom().contains(k) by {
        if new_t.contains(k) {
            let p = choose|p: int| 0 <= p < new_t.len() && new_t[p] == k;
            if p < at {
                assert(old_t[p] == k);
            } else if p > at {
                assert(old_t[p + shift] == k);
            }
        }
        if old_t.contains(k) {
            let p = choose|p: int| 0 <= p < old_t.len() && old_t[p] == k;
            if p < at {
                assert(new_t[p] == k);
            } else if p >= from {
                assert(new_t[p - shift] == k);
            } else {
                assert(new_t[at] == k);
            }
        }
        if k == key {
            assert(new_t[at] == k);
        }
    }
    assert forall|k: Seq<char>| #[trigger] nm.dom().contains(k) implies nm[k] == want[k] by {
        let p = new_t.index_of(k);
        assert(0 <= p < new_t.len() && new_t[p] == k);
        if p == at {
            assert(k == key);
        } else {
            assert(k != key) by {
                assert(new_t[at] == key);
            }
            let q = if p < at { p } else { p + shift };
            assert(old_t[q] == k);
            assert(old_t.contains(k));
            assert(old_t.index_of(k) == q);
        }
    }
    assert(nm =~= want);
}

/// A label set has finitely many keys.
pub proof fn label_sets_are_finite(labels: Labels)
    ensures
        labels@.dom().finite(),
{
    let keys = text::texts(labels.keys@);
    assert(labels@.dom() =~= keys.to_set());
    vstd::seq_lib::seq_to_set_is_finite(keys);
}

/// An ascending sequence with one more element at its place.
spec fn placed(q: Seq<Seq<char>>, k: Seq<char>) -> Seq<Seq<char>>
    decreases q.len(),
{
    if q.len() == 0 {
        seq![k]
    } else if text::lex_less(k, q[0]) {
        seq![k] + q
    } else {
        seq![q[0]] + placed(q.drop_first(), k)
    }
}

proof fn lemma_placed(q: Seq<Seq<char>>, k: Seq<char>)
    requires
        ascending(q),
        !q.contains(k),
    ensures
        ascending(placed(q, k)),
        forall|x: Seq<char>| #[trigger] placed(q, k).contains(x) <==> x == k || q.contains(x),
    decreases q.len(),
{
    let r = placed(q, k);
    if q.len() == 0 {
        assert(r[0] == k);
    } else if text::lex_less(k, q[0]) {
        assert forall|i: int, j: int| 0 <= i < j < r.len() implies text::lex_less(
            #[trigger] r[i],
            #[trigger] r[j],
        ) by {
            if i == 0 && j > 1 {
                assert(text::lex_less(q[0], q[j - 1]));
                text::lemma_lex_transitive(k, q[0], q[j - 1]);
            }
        }
        assert(r[0] == k);
        assert forall|x: Seq<char>| q.contains(x) implies #[trigger] r.contains(x) by {
            let i = q.index_of(x);
            assert(r[i + 1] == x);
        }
        assert forall|x: Seq<char>| #[trigger] r.contains(x) implies x == k || q.contains(x) by {
            let i = r.index_of(x);
            if i > 0 {
                assert(q[i - 1] == x);
            }
        }
    } else {
        let tail = q.drop_first();
        assert(q.contains(q[0]));
        text::lemma_lex_total(k, q[0]);
        assert forall|i: int, j: int| 0 <= i < j < tail.len() implies text::lex_less(
            #[trigger] tail[i],
            #[trigger] tail[j],
        ) by {
            assert(tail[i] == q[i + 1] && tail[j] == q[j + 1]);
        }
        assert(!tail.contains(k)) by {
            if tail.contains(k) {
                let i = tail.index_of(k);
                assert(q[i + 1] == k);
            }
        }
        lemma_placed(tail, k);
        let rest = placed(tail, k);
        assert forall|j: int| 0 <= j < rest.len() implies text::lex_less(
            q[0],
            #[trigger] rest[j],
        ) by {
            assert(rest.contains(rest[j]));
            if rest[j] != k {
                let i = tail.index_of(rest[j]);
                assert(q[i + 1] == rest[j]);
            }
        }
        assert forall|i: int, j: int| 0 <= i < j < r.len() implies text::lex_less(
            #[trigger] r[i],
            #[trigger] r[j],
        ) by {
            if i > 0 {
                assert(r[i] == rest[i - 1] && r[j] == rest[j - 1]);
            } else {
                assert(r[j] == rest[j - 1]);
            }
        }
        assert forall|x: Seq<char>| x == k || q.contains(x) implies #[trigger] r.contains(x) by {
            if x == q[0] {
                assert(r[0] == x);
            } else {
                if q.contains(x) {
                    let i = q.index_of(x);
                    assert(tail[i - 1] == x);
                }
                assert(rest.contains(x));
                let i = rest.index_of(x);
                assert(r[i + 1] == x);
            }
        }
        assert forall|x: Seq<char>| #[trigger] r.contains(x) implies x == k || q.contains(x) by {
            let i = r.index_of(x);
            if i > 0 {
                assert(rest[i - 1] == x);
                assert(rest.contains(x));
                if x != k {
                    let j = tail.index_of(x);
                    assert(q[j + 1] == x);
                }
            }
        }
    }
}

/// Every finite set of texts can be put in ascending order.
pub proof fn finite_sets_have_an_order(keys: Set<Seq<char>>) -> (q: Seq<Seq<char>>)
    requires
        keys.finite(),
    ensures
        ascending(q),
        forall|k: Seq<char>| #[trigger] q.contains(k) <==> keys.contains(k),
    decreases keys.len(),
{
    if keys.len() == 0 {
        assert(keys =~= Set::empty());
        seq![]
    } else {
        let a = keys.choose();
        let rest = finite_sets_have_an_order(keys.remove(a));
        lemma_placed(rest, a);
        placed(rest, a)
    }
}

} // verus!
