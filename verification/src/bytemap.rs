use vstd::prelude::*;

verus! {

/// Compares two byte vectors for equality of their contents.
pub fn bytes_eq(a: &Vec<u8>, b: &Vec<u8>) -> (r: bool)
    ensures
        r == (a@ == b@),
{
    if a.len() != b.len() {
        return false;
    }
    let mut i: usize = 0;
    while i < a.len()
        invariant
            a@.len() == b@.len(),
            i <= a@.len(),
            forall|j: int| 0 <= j < i ==> a@[j] == b@[j],
        decreases a@.len() - i,
    {
        if a[i] != b[i] {
            return false;
        }
        i = i + 1;
    }
    proof {
        assert(a@ =~= b@);
    }
    true
}

/// Copies a byte vector.
pub fn clone_bytes(v: &Vec<u8>) -> (r: Vec<u8>)
    ensures
        r@ == v@,
{
    let mut r: Vec<u8> = Vec::new();
    let mut i: usize = 0;
    while i < v.len()
        invariant
            i <= v@.len(),
            r@ =~= v@.take(i as int),
        decreases v@.len() - i,
    {
        r.push(v[i]);
        i = i + 1;
    }
    proof {
        assert(r@ =~= v@);
    }
    r
}

/// Whether `key` starts with `prefix`.
pub open spec fn key_prefixed(key: Seq<u8>, prefix: Seq<u8>) -> bool {
    key.len() >= prefix.len() && key.subrange(0, prefix.len() as int) == prefix
}

/// Tests whether `key` starts with `prefix`.
pub fn starts_with(key: &Vec<u8>, prefix: &Vec<u8>) -> (r: bool)
    ensures
        r == key_prefixed(key@, prefix@),
{
    if key.len() < prefix.len() {
        return false;
    }
    let mut i: usize = 0;
    while i < prefix.len()
        invariant
            key@.len() >= prefix@.len(),
            i <= prefix@.len(),
            forall|j: int| 0 <= j < i ==> key@[j] == prefix@[j],
        decreases prefix@.len() - i,
    {
        if key[i] != prefix[i] {
            proof {
                assert(key@.subrange(0, prefix@.len() as int)[i as int] == key@[i as int]);
            }
            return false;
        }
        i = i + 1;
    }
    proof {
        assert(key@.subrange(0, prefix@.len() as int) =~= prefix@);
    }
    true
}

/// The views of an entry list's keys and values.
pub open spec fn entry_views(s: Seq<(Vec<u8>, Vec<u8>)>) -> Seq<(Seq<u8>, Seq<u8>)> {
    s.map_values(|p: (Vec<u8>, Vec<u8>)| (p.0@, p.1@))
}

/// The map described by an entry sequence; a later entry for a key shadows
/// an earlier one.
pub open spec fn assoc_view(s: Seq<(Seq<u8>, Seq<u8>)>) -> Map<Seq<u8>, Seq<u8>>
    decreases s.len(),
{
    if s.len() == 0 {
        Map::empty()
    } else {
        assoc_view(s.drop_last()).insert(s.last().0, s.last().1)
    }
}

/// When no entry at or after position `i` carries key `k`, the entries
/// before `i` already decide what the whole list says about `k`.
pub proof fn lemma_assoc_view_skip(s: Seq<(Seq<u8>, Seq<u8>)>, i: int, k: Seq<u8>)
    requires
        0 <= i <= s.len(),
        forall|j: int| i <= j < s.len() ==> (#[trigger] s[j]).0 != k,
    ensures
        assoc_view(s).contains_key(k) == assoc_view(s.take(i)).contains_key(k),
        assoc_view(s).contains_key(k) ==> assoc_view(s)[k] == assoc_view(s.take(i))[k],
    decreases s.len() - i,
{
    if i < s.len() {
        let shorter = s.drop_last();
        assert(s.last() == s[s.len() - 1]);
        lemma_assoc_view_skip(shorter, i, k);
        assert(shorter.take(i) =~= s.take(i));
    } else {
        assert(s.take(i) =~= s);
    }
}

/// An in-memory byte-keyed map, kept as a list of entries in insertion
/// order; the newest entry for a key wins.
pub struct ByteMap {
    entries: Vec<(Vec<u8>, Vec<u8>)>,
}

impl View for ByteMap {
    type V = Map<Seq<u8>, Seq<u8>>;

    closed spec fn view(&self) -> Map<Seq<u8>, Seq<u8>> {
        assoc_view(self.entry_seq())
    }
}

impl ByteMap {
    /// The entries as (key, value) byte sequences, oldest first.
    pub closed spec fn entry_seq(&self) -> Seq<(Seq<u8>, Seq<u8>)> {
        entry_views(self.entries@)
    }

    /// What the map says is exactly what its entry list says.
    pub proof fn lemma_view_is_assoc(&self)
        ensures
            self@ == assoc_view(self.entry_seq()),
    {
    }

    pub fn new() -> (r: ByteMap)
        ensures
            r@ == Map::<Seq<u8>, Seq<u8>>::empty(),
            r.entry_seq() == Seq::<(Seq<u8>, Seq<u8>)>::empty(),
    {
        let r = ByteMap { entries: Vec::new() };
        proof {
            assert(r.entry_seq() =~= Seq::<(Seq<u8>, Seq<u8>)>::empty());
        }
        r
    }

    pub fn entry_count(&self) -> (r: usize)
        ensures
            r == self.entry_seq().len(),
    {
        self.entries.len()
    }

    /// The key of the entry at position `i`, copied out.
    pub fn key_at(&self, i: usize) -> (r: Vec<u8>)
        requires
            i < self.entry_seq().len(),
        ensures
            r@ == self.entry_seq()[i as int].0,
    {
        clone_bytes(&self.entries[i].0)
    }

    /// The value of the entry at position `i`, copied out.
    pub fn value_at(&self, i: usize) -> (r: Vec<u8>)
        requires
            i < self.entry_seq().len(),
        ensures
            r@ == self.entry_seq()[i as int].1,
    {
        clone_bytes(&self.entries[i].1)
    }

    /// Looks a key up, newest entry first.
    pub fn get(&self, key: &Vec<u8>) -> (r: Option<Vec<u8>>)
        ensures
            match r {
                Some(v) => self@.contains_key(key@) && v@ == self@[key@],
                None => !self@.contains_key(key@),
            },
    {
        let ghost s = self.entry_seq();
        let mut i: usize = self.entries.len();
        while i > 0
            invariant
                s == self.entry_seq(),
                i <= s.len(),
                s.len() == self.entries@.len(),
                forall|j: int| i <= j < s.len() ==> (#[trigger] s[j]).0 != key@,
            decreases i,
        {
            i = i - 1;
            if bytes_eq(&self.entries[i].0, key) {
                proof {
                    lemma_assoc_view_skip(s, i + 1, key@);
                    assert(s.take(i + 1).last() == s[i as int]);
                    assert(s.take(i + 1).drop_last() =~= s.take(i as int));
                }
                return Some(clone_bytes(&self.entries[i].1));
            }
        }
        proof {
            lemma_assoc_view_skip(s, 0, key@);
            assert(s.take(0) =~= Seq::<(Seq<u8>, Seq<u8>)>::empty());
        }
        None
    }

    /// Binds a key to a value, shadowing any earlier binding.
    pub fn insert(&mut self, key: Vec<u8>, value: Vec<u8>)
        ensures
            final(self)@ == old(self)@.insert(key@, value@),
            final(self).entry_seq() == old(self).entry_seq().push((key@, value@)),
    {
        let ghost old_seq = self.entry_seq();
        proof {
            let pushed = self.entries@.push((key, value));
            assert(entry_views(pushed) =~= old_seq.push((key@, value@)));
        }
        self.entries.push((key, value));
        proof {
            assert(self.entry_seq() =~= old_seq.push((key@, value@)));
            assert(self.entry_seq().drop_last() =~= old_seq);
        }
    }

    /// Drops every binding of `key`.
    pub fn remove(&mut self, key: &Vec<u8>)
        ensures
            final(self)@ == old(self)@.remove(key@),
    {
        let ghost s = self.entry_seq();
        let mut kept: Vec<(Vec<u8>, Vec<u8>)> = Vec::new();
        let mut i: usize = 0;
        while i < self.entries.len()
            invariant
                s == self.entry_seq(),
                s.len() == self.entries@.len(),
                i <= s.len(),
                assoc_view(entry_views(kept@)) =~= assoc_view(s.take(i as int)).remove(key@),
            decreases s.len() - i,
        {
            let ghost kept_before = entry_views(kept@);
            if !bytes_eq(&self.entries[i].0, key) {
                let k = clone_bytes(&self.entries[i].0);
                let v = clone_bytes(&self.entries[i].1);
                proof {
                    let pushed = kept@.push((k, v));
                    assert(entry_views(pushed) =~= kept_before.push((s[i as int].0, s[i as int].1)));
                }
                kept.push((k, v));
                proof {
                    assert(entry_views(kept@).drop_last() =~= kept_before);
                    assert(s.take(i + 1).drop_last() =~= s.take(i as int));
                    assert(s.take(i + 1).last() == s[i as int]);
                    assert(assoc_view(entry_views(kept@)) =~= assoc_view(s.take(i + 1)).remove(
                        key@,
                    ));
                }
            } else {
                proof {
                    assert(s.take(i + 1).drop_last() =~= s.take(i as int));
                    assert(s.take(i + 1).last() == s[i as int]);
                    assert(assoc_view(entry_views(kept@)) =~= assoc_view(s.take(i + 1)).remove(
                        key@,
                    ));
                }
            }
            i = i + 1;
        }
        proof {
            assert(s.take(s.len() as int) =~= s);
        }
        self.entries = kept;
    }

    /// Drops every binding whose key starts with `prefix`.
    pub fn remove_prefixed(&mut self, prefix: &Vec<u8>)
        ensures
            final(self)@ == old(self)@.remove_keys(
                Set::new(|k: Seq<u8>| key_prefixed(k, prefix@)),
            ),
    {
        let ghost s = self.entry_seq();
        let ghost dropped = Set::new(|k: Seq<u8>| key_prefixed(k, prefix@));
        let mut kept: Vec<(Vec<u8>, Vec<u8>)> = Vec::new();
        let mut i: usize = 0;
        while i < self.entries.len()
            invariant
                s == self.entry_seq(),
                s.len() == self.entries@.len(),
                i <= s.len(),
                dropped == Set::new(|k: Seq<u8>| key_prefixed(k, prefix@)),
                assoc_view(entry_views(kept@)) =~= assoc_view(s.take(i as int)).remove_keys(
                    dropped,
                ),
            decreases s.len() - i,
        {
            let ghost kept_before = entry_views(kept@);
            if !starts_with(&self.entries[i].0, prefix) {
                let k = clone_bytes(&self.entries[i].0);
                let v = clone_bytes(&self.entries[i].1);
                proof {
                    let pushed = kept@.push((k, v));
                    assert(entry_views(pushed) =~= kept_before.push((s[i as int].0, s[i as int].1)));
                }
                kept.push((k, v));
                proof {
                    assert(entry_views(kept@).drop_last() =~= kept_before);
                    assert(s.take(i + 1).drop_last() =~= s.take(i as int));
                    assert(s.take(i + 1).last() == s[i as int]);
                    assert(assoc_view(entry_views(kept@)) =~= assoc_view(s.take(i + 1)).remove_keys(
                        dropped,
                    ));
                }
            } else {
                proof {
                    assert(s.take(i + 1).drop_last() =~= s.take(i as int));
                    assert(s.take(i + 1).last() == s[i as int]);
                    assert(assoc_view(entry_views(kept@)) =~= assoc_view(s.take(i + 1)).remove_keys(
                        dropped,
                    ));
                }
            }
            i = i + 1;
        }
        proof {
            assert(s.take(s.len() as int) =~= s);
        }
        self.entries = kept;
    }
}

} // verus!
