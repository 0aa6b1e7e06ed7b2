use vstd::prelude::*;

verus! {

/// Byte-wise comparison of two identifiers.
pub fn same_bytes(a: &[u8], b: &[u8]) -> (r: bool)
    ensures
        r == (a@ == b@),
{
    if a.len() != b.len() {
        return false;
    }
    let mut i: usize = 0;
    while i < a.len()
        invariant
            a@.len() == b@.len(),
            i <= a@.len(),
            forall|j: int| 0 <= j < i ==> a@[j] == b@[j],
        decreases a@.len() - i,
    {
        if a[i] != b[i] {
            return false;
        }
        i = i + 1;
    }
    assert(a@ =~= b@);
    true
}

/// A fresh copy of an identifier.
pub fn copy_bytes(a: &[u8]) -> (r: Vec<u8>)
    ensures
        r@ == a@,
{
    let mut r: Vec<u8> = Vec::new();
    let mut i: usize = 0;
    while i < a.len()
        invariant
            i <= a@.len(),
            r@ == a@.subrange(0, i as int),
        decreases a@.len() - i,
    {
        r.push(a[i]);
        i = i + 1;
        assert(r@ =~= a@.subrange(0, i as int));
    }
    assert(a@ =~= a@.subrange(0, a@.len() as int));
    r
}

/// A fresh copy of a list of identifiers.
pub fn copy_byte_lists(a: &Vec<Vec<u8>>) -> (r: Vec<Vec<u8>>)
    ensures
        r.deep_view() == a.deep_view(),
{
    let mut r: Vec<Vec<u8>> = Vec::new();
    let mut i: usize = 0;
    while i < a.len()
        invariant
            i <= a@.len(),
            r@.len() == i,
            forall|j: int| 0 <= j < i ==> #[trigger] r@[j]@ == a@[j]@,
        decreases a@.len() - i,
    {
        r.push(copy_bytes(a[i].as_slice()));
        i = i + 1;
    }
    assert(r.deep_view() =~= a.deep_view());
    r
}

/// A map from byte-string keys to values, each key present at most once.
pub struct ByteTable<V: View> {
    keys: Vec<Vec<u8>>,
    vals: Vec<V>,
    map: Ghost<Map<Seq<u8>, V::V>>,
}

impl<V: View> View for ByteTable<V> {
    type V = Map<Seq<u8>, V::V>;

    closed spec fn view(&self) -> Map<Seq<u8>, V::V> {
        self.map@
    }
}

impl<V: View> ByteTable<V> {
    pub closed spec fn wf(&self) -> bool {
        &&& self.keys@.len() == self.vals@.len()
        &&& forall|i: int, j: int|
            0 <= i < self.keys@.len() && 0 <= j < self.keys@.len() && i != j
                ==> #[trigger] self.keys@[i]@ != #[trigger] self.keys@[j]@
        &&& forall|i: int|
            0 <= i < self.keys@.len() ==> self.map@.contains_key(#[trigger] self.keys@[i]@)
                && self.map@[self.keys@[i]@] == self.vals@[i]@
        &&& forall|k: Seq<u8>|
            #[trigger] self.map@.contains_key(k) ==> exists|i: int|
                0 <= i < self.keys@.len() && #[trigger] self.keys@[i]@ == k
    }

    pub fn new() -> (r: Self)
        ensures
            r.wf(),
            r@ == Map::<Seq<u8>, V::V>::empty(),
    {
        ByteTable { keys: Vec::new(), vals: Vec::new(), map: Ghost(Map::empty()) }
    }

    fn find(&self, k: &[u8]) -> (r: Option<usize>)
        requires
            self.wf(),
        ensures
            match r {
                Some(i) => i < self.keys@.len() && self.keys@[i as int]@ == k@,
                None => !self@.contains_key(k@),
            },
    {
        let mut i: usize = 0;
        while i < self.keys.len()
            invariant
                self.wf(),
                i <= self.keys@.len(),
                forall|j: int| 0 <= j < i ==> #[trigger] self.keys@[j]@ != k@,
            decreases self.keys@.len() - i,
        {
            if same_bytes(self.keys[i].as_slice(), k) {
                return Some(i);
            }
            i = i + 1;
        }
        None
    }

    pub fn contains_key(&self, k: &[u8]) -> (r: bool)
        requires
            self.wf(),
        ensures
            r == self@.contains_key(k@),
    {
        match self.find(k) {
            Some(_) => true,
            None => false,
        }
    }

    pub fn get(&self, k: &[u8]) -> (r: Option<&V>)
        requires
            self.wf(),
        ensures
            match r {
                Some(v) => self@.contains_key(k@) && v@ == self@[k@],
                None => !self@.contains_key(k@),
            },
    {
        match self.find(k) {
            Some(i) => Some(&self.vals[i]),
            None => None,
        }
    }

    /// Sets the value of `k`, adding the key where it is new.
    pub fn insert(&mut self, k: &[u8], v: V)
        requires
            old(self).wf(),
        ensures
            final(self).wf(),
            final(self)@ == old(self)@.insert(k@, v@),
    {
        match self.find(k) {
            Some(i) => {
                self.vals.set(i, v);
                self.map = Ghost(self.map@.insert(k@, v@));
                assert forall|k2: Seq<u8>| #[trigger] self.map@.contains_key(k2) implies exists|j: int|
                    0 <= j < self.keys@.len() && #[trigger] self.keys@[j]@ == k2 by {
                    if k2 == k@ {
                        assert(self.keys@[i as int]@ == k2);
                    } else {
                        assert(old(self).map@.contains_key(k2));
                        let j = choose|j: int| 0 <= j < old(self).keys@.len() && #[trigger] old(self).keys@[j]@ == k2;
                        assert(self.keys@[j]@ == k2);
                    }
                }
            },
            None => {
                let kc = copy_bytes(k);
                self.keys.push(kc);
                self.vals.push(v);
                self.map = Ghost(self.map@.insert(k@, v@));
                let ghost n = self.keys@.len() - 1;
                assert(self.keys@[n]@ == k@);
                assert forall|k2: Seq<u8>| #[trigger] self.map@.contains_key(k2) implies exists|j: int|
                    0 <= j < self.keys@.len() && #[trigger] self.keys@[j]@ == k2 by {
                    if k2 == k@ {
                        assert(self.keys@[n]@ == k2);
                    } else {
                        assert(old(self).map@.contains_key(k2));
                        let j = choose|j: int| 0 <= j < old(self).keys@.len() && #[trigger] old(self).keys@[j]@ == k2;
                        assert(self.keys@[j]@ == k2);
                    }
                }
            },
        }
    }
}

} // verus!

verus! {

/// The first `i + 1` items hold `k` exactly when the first `i` do or item `i` is `k`.
pub proof fn lemma_take_push_contains<T>(s: Seq<T>, i: int)
    requires
        0 <= i < s.len(),
    ensures
        forall|k: T| #[trigger] s.take(i + 1).contains(k) == (s.take(i).contains(k) || k == s[i]),
{
    assert forall|k: T| #[trigger] s.take(i + 1).contains(k) == (s.take(i).contains(k) || k == s[i]) by {
        if s.take(i).contains(k) {
            let j = choose|j: int| 0 <= j < i && #[trigger] s.take(i)[j] == k;
            assert(s.take(i + 1)[j] == k);
        }
        if k == s[i] {
            assert(s.take(i + 1)[i] == k);
        }
        if s.take(i + 1).contains(k) {
            let j = choose|j: int| 0 <= j < i + 1 && #[trigger] s.take(i + 1)[j] == k;
            if j < i {
                assert(s.take(i)[j] == k);
            }
        }
    }
}

} // verus!

verus! {

/// The views of an (account, id) log.
pub open spec fn log_view(log: Seq<(u64, Vec<u8>)>) -> Seq<(u64, Seq<u8>)> {
    log.map_values(|p: (u64, Vec<u8>)| (p.0, p.1@))
}

/// Whether a log entry stands beside `who`.
pub open spec fn beside(who: u64) -> spec_fn((u64, Seq<u8>)) -> bool {
    |p: (u64, Seq<u8>)| p.0 == who
}

/// The ids that a log lists beside `who`, in order.
pub open spec fn ids_for(log: Seq<(u64, Seq<u8>)>, who: u64) -> Seq<Seq<u8>> {
    log.filter(beside(who)).map_values(|p: (u64, Seq<u8>)| p.1)
}

/// The ids that `log` lists beside `who`, in order.
pub fn ids_of(log: &Vec<(u64, Vec<u8>)>, who: u64) -> (r: Vec<Vec<u8>>)
    ensures
        r.deep_view() == ids_for(log_view(log@), who),
{
    let ghost idx = log_view(log@);
    let mut r: Vec<Vec<u8>> = Vec::new();
    let mut i: usize = 0;
    while i < log.len()
        invariant
            idx == log_view(log@),
            i <= log@.len(),
            r.deep_view() == ids_for(idx.take(i as int), who),
        decreases log@.len() - i,
    {
        proof {
            assert(idx.take(i + 1) =~= idx.take(i as int).push(idx[i as int]));
            idx.take(i as int).lemma_filter_push(idx[i as int], beside(who));
        }
        if log[i].0 == who {
            let ghost before = r.deep_view();
            let c = copy_bytes(log[i].1.as_slice());
            proof {
                assert(c.deep_view() =~= c@);
            }
            r.push(c);
            proof {
                assert(r.deep_view() =~= before.push(idx[i as int].1));
                assert(ids_for(idx.take(i + 1), who) =~= before.push(idx[i as int].1));
            }
        } else {
            proof {
                assert(ids_for(idx.take(i + 1), who) =~= ids_for(idx.take(i as int), who));
            }
        }
        i = i + 1;
    }
    proof {
        assert(idx.take(i as int) =~= idx);
    }
    r
}

} // verus!
