//! Rich-presence key/value sets, as Steam reports them for one friend, and
//! their sorted `key=value | …` dump.
use vstd::prelude::*;
use crate::text::{seq_lt, join, chars_of, push_all, push_char, push_str_chars, string_of, lemma_join_push};
use crate::order::{stable_order, stably_sorted, lemma_distinct_keys_strictly_increase, lemma_strictly_sorted_unique};

verus! {

/// A set of rich-presence keys with one value each.
pub struct RichPresence {
    entries: Vec<(String, String)>,
}

impl RichPresence {
    /// No key occurs twice.
    #[verifier::type_invariant]
    spec fn distinct_keys(self) -> bool {
        forall|i: int, j: int|
            0 <= i < j < self.entries@.len() ==> #[trigger] self.entries@[i].0@ != #[trigger] self.entries@[j].0@
    }

    spec fn key_at(self, i: int) -> Seq<char> {
        self.entries@[i].0@
    }

    spec fn has_key(self, k: Seq<char>) -> bool {
        exists|i: int| 0 <= i < self.entries@.len() && #[trigger] self.key_at(i) == k
    }
}

impl View for RichPresence {
    type V = Map<Seq<char>, Seq<char>>;

    closed spec fn view(&self) -> Map<Seq<char>, Seq<char>> {
        Map::new(
            |k: Seq<char>| self.has_key(k),
            |k: Seq<char>|
                self.entries@[choose|i: int| 0 <= i < self.entries@.len() && #[trigger] self.key_at(i) == k].1@,
        )
    }
}

/// The keys of `dom` in strictly increasing order.
pub open spec fn sorted_keys_of(ks: Seq<Seq<char>>, dom: Set<Seq<char>>) -> bool {
    &&& forall|i: int, j: int| 0 <= i < j < ks.len() ==> seq_lt(#[trigger] ks[i], #[trigger] ks[j])
    &&& forall|k: Seq<char>| #[trigger] dom.contains(k) <==> ks.contains(k)
}

/// The keys of `m` in `str` order.
pub open spec fn sorted_keys(m: Map<Seq<char>, Seq<char>>) -> Seq<Seq<char>> {
    choose|ks: Seq<Seq<char>>| sorted_keys_of(ks, m.dom())
}

/// `key=value` for one key of `m`.
pub open spec fn dump_pair(m: Map<Seq<char>, Seq<char>>, k: Seq<char>) -> Seq<char> {
    k + seq!['='] + m[k]
}

/// The separator of the dump.
pub open spec fn dump_sep() -> Seq<char> {
    seq![' ', '|', ' ']
}

/// `key=value` pairs of `m` sorted by key and joined with ` | `.
pub open spec fn debug_dump(m: Map<Seq<char>, Seq<char>>) -> Seq<char> {
    join(sorted_keys(m).map_values(|k: Seq<char>| dump_pair(m, k)), dump_sep())
}

impl RichPresence {
    proof fn lemma_view_at(self, i: int)
        requires
            self.distinct_keys(),
            0 <= i < self.entries@.len(),
        ensures
            self@.dom().contains(self.key_at(i)),
            self@[self.key_at(i)] == self.entries@[i].1@,
    {
        let k = self.key_at(i);
        assert(self.has_key(k));
        let j = choose|j: int| 0 <= j < self.entries@.len() && #[trigger] self.key_at(j) == k;
        if j < i {
            assert(self.entries@[j].0@ != self.entries@[i].0@);
        } else if j > i {
            assert(self.entries@[i].0@ != self.entries@[j].0@);
        }
    }

    /// An empty set of keys.
    pub fn new() -> (r: Self)
        ensures
            r@ == Map::<Seq<char>, Seq<char>>::empty(),
    {
        let r = RichPresence { entries: Vec::new() };
        assert(r@ =~= Map::<Seq<char>, Seq<char>>::empty());
        r
    }

    /// Position of `key` among the entries.
    fn find(&self, key: &String) -> (r: Option<usize>)
        ensures
            r matches Some(i) ==> i < self.entries@.len() && self.key_at(i as int) == key@,
            r is None ==> !self.has_key(key@),
    {
        let mut i: usize = 0;
        while i < self.entries.len()
            invariant
                i <= self.entries@.len(),
                forall|j: int| 0 <= j < i ==> #[trigger] self.key_at(j) != key@,
            decreases self.entries.len() - i,
        {
            if self.entries[i].0 == *key {
                return Some(i);
            }
            i += 1;
        }
        None
    }

    /// Sets the value of `key`, replacing any earlier one.
    pub fn insert(&mut self, key: String, value: String)
        ensures
            final(self)@ == old(self)@.insert(key@, value@),
    {
        proof {
            use_type_invariant(&*self);
        }
        let ghost before = *self;
        let found = self.find(&key);
        let mut entries: Vec<(String, String)> = Vec::new();
        std::mem::swap(&mut entries, &mut self.entries);
        let ghost kv = key@;
        let ghost vv = value@;
        match found {
            Some(i) => {
                entries.set(i, (key, value));
            },
            None => {
                entries.push((key, value));
            },
        }
        let ghost after = RichPresence { entries: entries };
        proof {
            assert forall|a: int, b: int| 0 <= a < b < after.entries@.len() implies #[trigger] after.entries@[a].0@ != #[trigger] after.entries@[b].0@ by {
                match found {
                    Some(i) => {
                        if a != i as int && b != i as int {
                            assert(before.entries@[a].0@ != before.entries@[b].0@);
                        } else if a == i as int {
                            assert(before.key_at(b) != before.key_at(a));
                        } else {
                            assert(before.key_at(a) != before.key_at(b));
                        }
                    },
                    None => {
                        if b < before.entries@.len() {
                            assert(before.entries@[a].0@ != before.entries@[b].0@);
                        } else {
                            assert(before.key_at(a) != kv);
                        }
                    },
                }
            }
            assert(after.distinct_keys());
            assert forall|k: Seq<char>| #[trigger] after@.dom().contains(k) <==> before@.insert(kv, vv).dom().contains(k) by {
                if after.has_key(k) {
                    let j = choose|j: int| 0 <= j < after.entries@.len() && #[trigger] after.key_at(j) == k;
                    if k != kv {
                        assert(before.key_at(j) == k);
                    }
                }
                if before.has_key(k) {
                    let j = choose|j: int| 0 <= j < before.entries@.len() && #[trigger] before.key_at(j) == k;
                    match found {
                        Some(i) => {
                            if j == i as int {
                                assert(after.key_at(j) == kv);
                            } else {
                                assert(after.key_at(j) == k);
                            }
                        },
                        None => {
                            assert(after.key_at(j) == k);
                        },
                    }
                }
                if k == kv {
                    match found {
                        Some(i) => {
                            assert(after.key_at(i as int) == kv);
                        },
                        None => {
                            assert(after.key_at(before.entries@.len() as int) == kv);
                        },
                    }
                }
            }
            assert forall|k: Seq<char>| #[trigger] after@.dom().contains(k) implies after@[k] == before@.insert(kv, vv)[k] by {
                let j = choose|j: int| 0 <= j < after.entries@.len() && #[trigger] after.key_at(j) == k;
                after.lemma_view_at(j);
                if k == kv {
                    match found {
                        Some(i) => {
                            if j != i as int {
                                assert(after.key_at(i as int) == kv);
                                if j < i as int {
                                    assert(after.entries@[j].0@ != after.entries@[i as int].0@);
                                } else {
                                    assert(after.entries@[i as int].0@ != after.entries@[j].0@);
                                }
                            }
                        },
                        None => {
                            if j < before.entries@.len() {
                                assert(before.key_at(j) == kv);
                            }
                        },
                    }
                } else {
                    assert(before.key_at(j) == k);
                    before.lemma_view_at(j);
                    match found {
                        Some(i) => {
                            assert(j != i as int);
                        },
                        None => {},
                    }
                }
            }
            assert(after@ =~= before@.insert(kv, vv));
        }
        self.entries = entries;
    }

    /// The value of `key`, if it is set.
    pub fn get(&self, key: &str) -> (r: Option<&String>)
        ensures
            r is Some <==> self@.dom().contains(key@),
            r matches Some(v) ==> v@ == self@[key@],
    {
        proof {
            use_type_invariant(self);
        }
        let k = string_of(&chars_of(key));
        match self.find(&k) {
            Some(i) => {
                proof {
                    self.lemma_view_at(i as int);
                }
                Some(&self.entries[i].1)
            },
            None => None,
        }
    }
}

/// Reading a key after `insert` gives the value just written; every other
/// key keeps what it had.
pub proof fn lemma_read_after_write(
    m: Map<Seq<char>, Seq<char>>,
    k: Seq<char>,
    v: Seq<char>,
    other: Seq<char>,
)
    requires
        other != k,
    ensures
        m.insert(k, v).dom().contains(k),
        m.insert(k, v)[k] == v,
        m.insert(k, v).dom().contains(other) == m.dom().contains(other),
        m.dom().contains(other) ==> m.insert(k, v)[other] == m[other],
{
}

/// Sorted `key=value | …` dump of all keys, for the debug view.
pub fn rich_debug_dump(keys: &RichPresence) -> (s: String)
    ensures
        s@ == debug_dump(keys@),
{
    proof {
        use_type_invariant(keys);
    }
    let n = keys.entries.len();
    let mut kc: Vec<Vec<char>> = Vec::new();
    let mut i: usize = 0;
    while i < n
        invariant
            n == keys.entries@.len(),
            i <= n,
            kc@.len() == i,
            forall|j: int| 0 <= j < i ==> #[trigger] kc@[j]@ == keys.key_at(j),
        decreases n - i,
    {
        kc.push(chars_of(keys.entries[i].0.as_str()));
        i += 1;
    }
    let ghost kv = kc@.map_values(|k: Vec<char>| k@);
    let order = stable_order(&kc);
    let ghost m = keys@;
    let ghost ks = order@.map_values(|o: usize| kv[o as int]);
    proof {
        assert forall|a: int, b: int| 0 <= a < b < kv.len() implies kv[a] != kv[b] by {
            assert(keys.entries@[a].0@ != keys.entries@[b].0@);
        }
        assert forall|a: int, b: int| 0 <= a < b < ks.len() implies seq_lt(#[trigger] ks[a], #[trigger] ks[b]) by {
            lemma_distinct_keys_strictly_increase(kv, order@, a, b);
        }
        assert forall|k: Seq<char>| #[trigger] m.dom().contains(k) <==> ks.contains(k) by {
            if m.dom().contains(k) {
                let j = choose|j: int| 0 <= j < keys.entries@.len() && #[trigger] keys.key_at(j) == k;
                assert(order@.contains(j as usize));
                let q = choose|q: int| 0 <= q < order@.len() && order@[q] == j as usize;
                assert(ks[q] == k);
            }
            if ks.contains(k) {
                let q = choose|q: int| 0 <= q < ks.len() && ks[q] == k;
                let j = order@[q] as int;
                assert(keys.key_at(j) == k);
            }
        }
        assert(sorted_keys_of(ks, m.dom()));
        let chosen = sorted_keys(m);
        assert(sorted_keys_of(chosen, m.dom()));
        assert forall|k: Seq<char>| chosen.contains(k) <==> ks.contains(k) by {
            assert(m.dom().contains(k) <==> chosen.contains(k));
            assert(m.dom().contains(k) <==> ks.contains(k));
        }
        lemma_strictly_sorted_unique(chosen, ks);
    }
    let ghost parts = ks.map_values(|k: Seq<char>| dump_pair(m, k));
    let mut out = String::new();
    let mut q: usize = 0;
    while q < n
        invariant
            n == keys.entries@.len(),
            n == kc@.len(),
            kv == kc@.map_values(|k: Vec<char>| k@),
            stably_sorted(kv, order@),
            ks == order@.map_values(|o: usize| kv[o as int]),
            parts == ks.map_values(|k: Seq<char>| dump_pair(m, k)),
            m == keys@,
            keys.distinct_keys(),
            forall|j: int| 0 <= j < n ==> #[trigger] kc@[j]@ == keys.key_at(j),
            q <= n,
            out@ == join(parts.take(q as int), dump_sep()),
        decreases n - q,
    {
        let ghost before = out@;
        if q > 0 {
            push_char(&mut out, ' ');
            push_char(&mut out, '|');
            push_char(&mut out, ' ');
        }
        let ghost mid = out@;
        let o = order[q];
        push_all(&mut out, &kc[o]);
        push_char(&mut out, '=');
        push_str_chars(&mut out, keys.entries[o].1.as_str());
        proof {
            keys.lemma_view_at(o as int);
            assert(parts[q as int] == dump_pair(m, ks[q as int]));
            assert(ks[q as int] == kc@[o as int]@);
            assert(out@ =~= mid + parts[q as int]);
            assert(parts.take(q + 1) =~= parts.take(q as int).push(parts[q as int]));
            lemma_join_push(parts.take(q as int), dump_sep(), parts[q as int]);
            if q > 0 {
                assert(mid =~= before + dump_sep());
            } else {
                assert(before.len() == 0);
                assert(out@ =~= parts[q as int]);
            }
        }
        q += 1;
    }
    assert(parts.take(n as int) =~= parts);
    out
}

} // verus!
