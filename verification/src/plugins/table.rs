//! Lists of names, and notes kept under names.

use vstd::prelude::*;
use vstd::string::*;

use crate::text::{chars_of, has_text, same_text, texts};

verus! {

/// The note under a name.
pub open spec fn noted<V>(items: Seq<(String, V)>, name: Seq<char>) -> Option<V>
    decreases items.len(),
{
    if items.len() == 0 {
        None
    } else if items.last().0@ == name {
        Some(items.last().1)
    } else {
        noted(items.drop_last(), name)
    }
}

/// Notes under names, one under each.
pub struct Notes<V> {
    items: Vec<(String, V)>,
}

impl<V> Notes<V> {
    /// The note under a name.
    pub closed spec fn under(self, name: Seq<char>) -> Option<V> {
        noted(self.items@, name)
    }

    /// The names with notes.
    pub closed spec fn names(self) -> Set<Seq<char>> {
        Set::new(|n: Seq<char>| noted(self.items@, n) is Some)
    }

    /// No notes.
    pub fn new() -> (n: Notes<V>)
        ensures
            forall|k: Seq<char>| #[trigger] n.under(k) is None,
    {
        Notes { items: Vec::new() }
    }

    /// The note under a name.
    pub fn get(&self, name: &str) -> (r: Option<&V>)
        ensures
            match r {
                Some(v) => self.under(name@) == Some(*v),
                None => self.under(name@) is None,
            },
    {
        let mut i: usize = self.items.len();
        assert(self.items@.take(i as int) =~= self.items@);
        while i > 0
            invariant
                i <= self.items@.len(),
                self.under(name@) == noted(self.items@.take(i as int), name@),
            decreases i,
        {
            assert(self.items@.take(i as int).drop_last() =~= self.items@.take(i - 1));
            if same_text(self.items[i - 1].0.as_str(), name) {
                return Some(&self.items[i - 1].1);
            }
            i -= 1;
        }
        None
    }

    /// Takes away the note under a name.
    pub fn remove(&mut self, name: &str)
        ensures
            forall|k: Seq<char>| #[trigger]
                final(self).under(k) == if k == name@ {
                    None
                } else {
                    old(self).under(k)
                },
    {
        let mut all: Vec<(String, V)> = Vec::new();
        std::mem::swap(&mut self.items, &mut all);
        let mut kept: Vec<(String, V)> = Vec::new();
        let ghost was = all@;
        let n: usize = all.len();
        let mut i: usize = 0;
        assert(was.skip(0) =~= was);
        while i < n
            invariant
                i <= n == was.len(),
                all@ == was.skip(i as int),
                forall|k: Seq<char>| #[trigger]
                    noted(kept@, k) == if k == name@ {
                        None
                    } else {
                        noted(was.take(i as int), k)
                    },
            decreases n - i,
        {
            let ghost before = kept@;
            assert(was.take(i + 1).drop_last() =~= was.take(i as int));
            let e: (String, V) = all.remove(0);
            assert(e == was[i as int]);
            assert(all@ =~= was.skip(i + 1));
            if !same_text(e.0.as_str(), name) {
                kept.push(e);
                assert(kept@.drop_last() =~= before);
            }
            i += 1;
            assert forall|k: Seq<char>| #[trigger]
                noted(kept@, k) == if k == name@ {
                    None
                } else {
                    noted(was.take(i as int), k)
                } by {
                let t = was.take(i as int);
                assert(noted(before, k) == if k == name@ {
                    None
                } else {
                    noted(t.drop_last(), k)
                });
                assert(t.last() == e);
            }
        }
        assert(was.take(n as int) =~= was);
        self.items = kept;
    }

    /// Puts a note under a name, in place of the one there.
    pub fn insert(&mut self, name: String, v: V)
        ensures
            forall|k: Seq<char>| #[trigger]
                final(self).under(k) == if k == name@ {
                    Some(v)
                } else {
                    old(self).under(k)
                },
    {
        self.remove(name.as_str());
        let ghost before = self.items@;
        let ghost mid = *self;
        self.items.push((name, v));
        assert(self.items@.drop_last() =~= before);
        assert forall|k: Seq<char>| #[trigger]
            self.under(k) == if k == name@ {
                Some(v)
            } else {
                old(self).under(k)
            } by {
            assert(mid.under(k) == noted(before, k));
        }
    }

    /// The number of notes, at most.
    pub(crate) fn len(&self) -> (n: usize)
        ensures
            n == self.count(),
    {
        self.items.len()
    }

    /// The number of places that notes stand in.
    pub closed spec fn count(self) -> nat {
        self.items@.len()
    }

    /// The name in a place.
    pub closed spec fn name_at(self, i: int) -> Seq<char> {
        self.items@[i].0@
    }

    /// The name in a place.
    pub(crate) fn name(&self, i: usize) -> (s: &String)
        requires
            i < self.count(),
        ensures
            s@ == self.name_at(i as int),
    {
        &self.items[i].0
    }

    /// The names in the places are those with notes.
    pub proof fn lemma_places(self, k: Seq<char>)
        ensures
            self.under(k) is Some <==> exists|i: int| 0 <= i < self.count() && self.name_at(i) == k,
    {
        lemma_noted(self.items@, k);
        if exists|i: int| 0 <= i < self.items@.len() && self.items@[i].0@ == k {
            let i = choose|i: int| 0 <= i < self.items@.len() && self.items@[i].0@ == k;
            assert(self.name_at(i) == k);
        }
    }
}

proof fn lemma_noted<V>(items: Seq<(String, V)>, k: Seq<char>)
    ensures
        noted(items, k) is Some <==> exists|i: int| 0 <= i < items.len() && (#[trigger] items[i]).0@ == k,
    decreases items.len(),
{
    if items.len() > 0 {
        let init = items.drop_last();
        lemma_noted(init, k);
        if items.last().0@ == k {
            assert(items[items.len() - 1].0@ == k);
        } else {
            if noted(init, k) is Some {
                let i = choose|i: int| 0 <= i < init.len() && (#[trigger] init[i]).0@ == k;
                assert(items[i].0@ == k);
            }
            if exists|i: int| 0 <= i < items.len() && (#[trigger] items[i]).0@ == k {
                let i = choose|i: int| 0 <= i < items.len() && (#[trigger] items[i]).0@ == k;
                assert(init[i].0@ == k);
            }
        }
    }
}

/// One text comes before another: by the first character that differs, and the shorter first.
pub open spec fn before(a: Seq<char>, b: Seq<char>) -> bool
    decreases a.len(),
{
    if b.len() == 0 {
        false
    } else if a.len() == 0 {
        true
    } else if a[0] != b[0] {
        (a[0] as int) < (b[0] as int)
    } else {
        before(a.drop_first(), b.drop_first())
    }
}

proof fn lemma_before_irreflexive(a: Seq<char>)
    ensures
        !before(a, a),
    decreases a.len(),
{
    if a.len() > 0 {
        lemma_before_irreflexive(a.drop_first());
    }
}

proof fn lemma_before_total(a: Seq<char>, b: Seq<char>)
    ensures
        before(a, b) || a == b || before(b, a),
    decreases a.len(),
{
    if a.len() > 0 && b.len() > 0 && a[0] == b[0] {
        lemma_before_total(a.drop_first(), b.drop_first());
        if a.drop_first() == b.drop_first() {
            assert(a =~= seq![a[0]] + a.drop_first());
            assert(b =~= seq![b[0]] + b.drop_first());
        }
    } else if a.len() == 0 && b.len() == 0 {
        assert(a =~= b);
    }
}

proof fn lemma_before_transitive(a: Seq<char>, b: Seq<char>, c: Seq<char>)
    requires
        before(a, b),
        before(b, c),
    ensures
        before(a, c),
    decreases a.len(),
{
    if a.len() > 0 && a[0] == b[0] && b[0] == c[0] {
        lemma_before_transitive(a.drop_first(), b.drop_first(), c.drop_first());
    }
}

/// Whether one text comes before another.
pub fn comes_before(a: &str, b: &str) -> (r: bool)
    ensures
        r == before(a@, b@),
{
    let v: Vec<char> = chars_of(a);
    let w: Vec<char> = chars_of(b);
    let mut i: usize = 0;
    assert(v@.skip(0) =~= v@);
    assert(w@.skip(0) =~= w@);
    while i < v.len() && i < w.len()
        invariant
            i <= v@.len(),
            i <= w@.len(),
            v@ == a@,
            w@ == b@,
            before(a@, b@) == before(v@.skip(i as int), w@.skip(i as int)),
        decreases v@.len() - i,
    {
        assert(v@.skip(i as int).drop_first() =~= v@.skip(i + 1));
        assert(w@.skip(i as int).drop_first() =~= w@.skip(i + 1));
        if v[i] != w[i] {
            return v[i] < w[i];
        }
        i += 1;
    }
    i < w.len()
}

/// The texts stand in order, none of them twice.
pub open spec fn in_order(s: Seq<Seq<char>>) -> bool {
    forall|i: int, j: int| 0 <= i < j < s.len() ==> before(#[trigger] s[i], #[trigger] s[j])
}

/// Adds a name to a list that stands in order, unless it is there.
pub fn add_in_order(list: &mut Vec<String>, name: &str)
    requires
        in_order(texts(old(list)@)),
    ensures
        in_order(texts(final(list)@)),
        forall|k: Seq<char>| #[trigger]
            texts(final(list)@).contains(k) <==> k == name@ || texts(old(list)@).contains(k),
{
    let ghost was = texts(list@);
    let n: usize = list.len();
    let mut i: usize = 0;
    while i < n && comes_before(list[i].as_str(), name)
        invariant
            i <= n == list@.len(),
            was == texts(list@),
            list@ == old(list)@,
            in_order(was),
            forall|j: int| 0 <= j < i ==> before(#[trigger] was[j], name@),
        decreases n - i,
    {
        assert(was[i as int] == list@[i as int]@);
        i += 1;
    }
    if i < n && same_text(list[i].as_str(), name) {
        assert(was[i as int] == list@[i as int]@);
        assert(was.contains(name@));
        return;
    }
    list.insert(i, name.to_owned());
    proof {
        let now = texts(list@);
        assert(now =~= was.insert(i as int, name@));
        if i < n {
            assert(was[i as int] == old(list)@[i as int]@);
            lemma_before_total(was[i as int], name@);
        }
        assert forall|a: int, b: int| 0 <= a < b < now.len() implies before(
            #[trigger] now[a],
            #[trigger] now[b],
        ) by {
            if a < i && b < i {
                assert(now[a] == was[a] && now[b] == was[b]);
            } else if a < i && b > i {
                assert(now[a] == was[a] && now[b] == was[b - 1]);
            } else if a > i {
                assert(now[a] == was[a - 1] && now[b] == was[b - 1]);
            } else if a == i {
                assert(now[b] == was[b - 1]);
                if b - 1 > i {
                    assert(before(was[i as int], was[b - 1]));
                    lemma_before_transitive(name@, was[i as int], was[b - 1]);
                }
            }
        }
        assert forall|k: Seq<char>| #[trigger] now.contains(k) <==> k == name@ || was.contains(k) by {
            if was.contains(k) {
                let j = was.index_of(k);
                if j < i {
                    assert(now[j] == k);
                } else {
                    assert(now[j + 1] == k);
                }
            }
            if k == name@ {
                assert(now[i as int] == k);
            }
            if now.contains(k) {
                let j = now.index_of(k);
                if j < i {
                    assert(was[j] == k);
                } else if j > i {
                    assert(was[j - 1] == k);
                }
            }
        }
    }
}

/// Two lists in order of the same texts are the same list: the order leaves no choice.
pub proof fn lemma_one_order(a: Seq<Seq<char>>, b: Seq<Seq<char>>)
    requires
        in_order(a),
        in_order(b),
        forall|k: Seq<char>| a.contains(k) <==> b.contains(k),
    ensures
        a == b,
    decreases a.len(),
{
    if a.len() == 0 {
        if b.len() > 0 {
            assert(b.contains(b[0]));
            assert(a.contains(b[0]));
        }
        assert(a =~= b);
    } else {
        assert(a.contains(a[0]));
        assert(b.contains(a[0]));
        assert(b.contains(b[0]));
        assert(a.contains(b[0]));
        let i = b.index_of(a[0]);
        let j = a.index_of(b[0]);
        if i > 0 && j > 0 {
            assert(before(b[0], b[i]));
            assert(before(a[0], a[j]));
            lemma_before_transitive(a[0], b[0], a[0]);
            lemma_before_irreflexive(a[0]);
        }
        assert(a[0] == b[0]);
        let x = a.drop_first();
        let y = b.drop_first();
        assert forall|k: Seq<char>| x.contains(k) <==> y.contains(k) by {
            if x.contains(k) {
                let m = x.index_of(k);
                assert(a[m + 1] == k);
                assert(before(a[0], a[m + 1]));
                lemma_before_irreflexive(k);
                assert(a.contains(k));
                let p = b.index_of(k);
                assert(p > 0);
                assert(y[p - 1] == k);
            }
            if y.contains(k) {
                let m = y.index_of(k);
                assert(b[m + 1] == k);
                assert(before(b[0], b[m + 1]));
                lemma_before_irreflexive(k);
                assert(b.contains(k));
                let p = a.index_of(k);
                assert(p > 0);
                assert(x[p - 1] == k);
            }
        }
        assert(in_order(x)) by {
            assert forall|p: int, q: int| 0 <= p < q < x.len() implies before(
                #[trigger] x[p],
                #[trigger] x[q],
            ) by {
                assert(x[p] == a[p + 1] && x[q] == a[q + 1]);
            }
        }
        assert(in_order(y)) by {
            assert forall|p: int, q: int| 0 <= p < q < y.len() implies before(
                #[trigger] y[p],
                #[trigger] y[q],
            ) by {
                assert(y[p] == b[p + 1] && y[q] == b[q + 1]);
            }
        }
        lemma_one_order(x, y);
        assert(a =~= seq![a[0]] + x);
        assert(b =~= seq![b[0]] + y);
    }
}

/// The same list of names.
pub fn copy_names(list: &Vec<String>) -> (out: Vec<String>)
    ensures
        texts(out@) == texts(list@),
{
    let mut out: Vec<String> = Vec::new();
    let mut i: usize = 0;
    while i < list.len()
        invariant
            i <= list@.len(),
            out@.len() == i,
            forall|j: int| 0 <= j < i ==> (#[trigger] out@[j])@ == list@[j]@,
        decreases list@.len() - i,
    {
        out.push(list[i].clone());
        i += 1;
    }
    assert(texts(out@) =~= texts(list@));
    out
}

/// The names without one of them.
pub open spec fn names_without(s: Seq<Seq<char>>, name: Seq<char>) -> Seq<Seq<char>>
    decreases s.len(),
{
    if s.len() == 0 {
        s
    } else if s.last() == name {
        names_without(s.drop_last(), name)
    } else {
        names_without(s.drop_last(), name).push(s.last())
    }
}

/// The names without one of them, wherever it stands.
pub fn without_name(list: &Vec<String>, name: &str) -> (out: Vec<String>)
    ensures
        texts(out@) == names_without(texts(list@), name@),
{
    let ghost all = texts(list@);
    let mut out: Vec<String> = Vec::new();
    let mut i: usize = 0;
    assert(all.take(0) =~= Seq::<Seq<char>>::empty());
    assert(texts(out@) =~= Seq::<Seq<char>>::empty());
    while i < list.len()
        invariant
            i <= list@.len(),
            all == texts(list@),
            texts(out@) == names_without(all.take(i as int), name@),
        decreases list@.len() - i,
    {
        assert(all.take(i + 1).drop_last() =~= all.take(i as int));
        assert(all.take(i + 1).last() == list@[i as int]@);
        if !same_text(list[i].as_str(), name) {
            let ghost was = out@;
            out.push(list[i].clone());
            assert(texts(out@) =~= texts(was).push(list@[i as int]@));
        }
        i += 1;
    }
    assert(all.take(i as int) =~= all);
    out
}

/// The names with one more, unless it is among them.
pub open spec fn names_with(s: Seq<Seq<char>>, name: Seq<char>) -> Seq<Seq<char>> {
    if s.contains(name) {
        s
    } else {
        s.push(name)
    }
}

/// Adds a name at the end of a list, unless it is there.
pub fn add_name(list: &mut Vec<String>, name: &str)
    ensures
        texts(final(list)@) == names_with(texts(old(list)@), name@),
{
    let ghost was = texts(list@);
    if !has_text(list, name) {
        list.push(name.to_owned());
        assert(texts(list@) =~= was.push(name@));
    }
}

/// Just the one name goes, wherever it stands.
pub proof fn lemma_which_names_stay(
    a: Seq<Seq<char>>,
    x: Seq<char>,
    b: Seq<Seq<char>>,
    name: Seq<char>,
)
    ensures
        x != name ==> names_without(a + seq![x] + b, name) == names_without(a, name) + seq![x] + names_without(b, name),
        !(x != name) ==> names_without(a + seq![x] + b, name) == names_without(a, name) + names_without(b, name),
        names_without(Seq::empty(), name) == Seq::<Seq<char>>::empty(),
    decreases b.len(),
{
    let none = Seq::<Seq<char>>::empty();
    let f = names_without(a, name);
    if b.len() == 0 {
        assert(b =~= none);
        assert(a + seq![x] + b =~= a.push(x));
        assert(a.push(x).drop_last() =~= a);
        assert(names_without(none, name) =~= Seq::<Seq<char>>::empty());
        assert(f + Seq::<Seq<char>>::empty() =~= f);
        assert(f + seq![x] + Seq::<Seq<char>>::empty() =~= f.push(x));
    } else {
        let c = b.drop_last();
        lemma_which_names_stay(a, x, c, name);
        assert((a + seq![x] + b).drop_last() =~= a + seq![x] + c);
        assert((a + seq![x] + b).last() == b.last());
        assert(names_without(a + seq![x] + b, name) =~= if x != name {
            f + seq![x] + names_without(b, name)
        } else {
            f + names_without(b, name)
        });
    }
}

/// A name is added at the end, unless it is there: then nothing changes.
pub proof fn lemma_name_is_added_once(s: Seq<Seq<char>>, name: Seq<char>, other: Seq<char>)
    ensures
        names_with(s, name).contains(name),
        other != name ==> (names_with(s, name).contains(other) <==> s.contains(other)),
        names_with(names_with(s, name), name) == names_with(s, name),
        !s.contains(name) ==> names_with(s, name) == s + seq![name],
        s.contains(name) ==> names_with(s, name) == s,
{
    let t = names_with(s, name);
    if !s.contains(name) {
        assert(t[s.len() as int] == name);
        assert(t =~= s + seq![name]);
    }
    if s.contains(other) {
        assert(t[s.index_of(other)] == other);
    }
    if t.contains(other) && other != name {
        assert(s[t.index_of(other)] == other);
    }
}

/// Names are in the order of dictionaries: the first character that differs decides, by its number, and
/// a name comes before what it begins.
pub proof fn lemma_order_of_names(p: Seq<char>, c: char, d: char, a: Seq<char>, b: Seq<char>)
    ensures
        before(p + seq![c] + a, p + seq![d] + b) <==> if c == d {
            before(a, b)
        } else {
            (c as u32) < (d as u32)
        },
        before(p, p + seq![c] + a),
        !before(p + seq![c] + a, p),
        !before(p, p),
    decreases p.len(),
{
    let x = p + seq![c] + a;
    let y = p + seq![d] + b;
    if p.len() > 0 {
        let q = p.drop_first();
        lemma_order_of_names(q, c, d, a, b);
        assert(x.drop_first() =~= q + seq![c] + a);
        assert(y.drop_first() =~= q + seq![d] + b);
        assert(x[0] == p[0] && y[0] == p[0]);
    } else {
        assert(x[0] == c && y[0] == d);
        assert(x.drop_first() =~= a);
        assert(y.drop_first() =~= b);
    }
}

} // verus!
