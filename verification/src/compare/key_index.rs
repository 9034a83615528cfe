use std::collections::HashMap;
use vstd::prelude::*;
use vstd::string::StringSliceAdditionalSpecFns;

verus! {

broadcast use vstd::std_specs::hash::group_hash_axioms;

/// One step of the key hash: multiply by the FNV prime and add the byte.
pub open spec fn hash_step(h: u64, b: u64) -> u64 {
    ((h as nat * 1099511628211nat + b as nat) % 0x1_0000_0000_0000_0000nat) as u64
}

/// The hash of a byte string, folded from the left.
pub open spec fn hash_bytes(h: u64, bytes: Seq<u8>) -> u64
    decreases bytes.len(),
{
    if bytes.len() == 0 {
        h
    } else {
        hash_step(hash_bytes(h, bytes.drop_last()), bytes.last() as u64)
    }
}

/// The hash of a composite key: the UTF-8 bytes of each value, each value
/// closed by a byte that never occurs in UTF-8.
pub open spec fn key_hash(key: Seq<Seq<char>>) -> u64
    decreases key.len(),
{
    if key.len() == 0 {
        14695981039346656037u64
    } else {
        hash_step(hash_bytes(key_hash(key.drop_last()), vstd::utf8::encode_utf8(key.last())), 0xff)
    }
}

fn step(h: u64, b: u64) -> (r: u64)
    requires
        b < 0x100,
    ensures
        r == hash_step(h, b),
{
    let wide: u128 = h as u128;
    proof {
        assert(wide * 1099511628211u128 <= 0xffff_ffff_ffff_ffffu128 * 1099511628211u128)
            by (nonlinear_arith)
            requires
                wide <= 0xffff_ffff_ffff_ffffu128,
        ;
    }
    let r = ((wide * 1099511628211u128 + b as u128) % 0x1_0000_0000_0000_0000u128) as u64;
    r
}

/// The hash under which a composite key is filed.
pub fn hash_key(key: &Vec<String>) -> (h: u64)
    ensures
        h == key_hash(key.deep_view()),
{
    let ghost kv = key.deep_view();
    let mut h: u64 = 14695981039346656037u64;
    let mut i: usize = 0;
    while i < key.len()
        invariant
            i <= key.len(),
            kv == key.deep_view(),
            h == key_hash(kv.take(i as int)),
        decreases key.len() - i,
    {
        let bytes = key[i].as_str().as_bytes();
        let ghost start = h;
        let mut t: usize = 0;
        while t < bytes.len()
            invariant
                t <= bytes.len(),
                h == hash_bytes(start, bytes@.take(t as int)),
            decreases bytes.len() - t,
        {
            proof {
                assert(bytes@.take(t + 1).drop_last() =~= bytes@.take(t as int));
            }
            h = step(h, bytes[t] as u64);
            t = t + 1;
        }
        proof {
            assert(bytes@.take(bytes.len() as int) =~= bytes@);
            assert(kv.take(i + 1).drop_last() =~= kv.take(i as int));
            assert(kv.take(i + 1).last() == kv[i as int]);
        }
        h = step(h, 0xff);
        i = i + 1;
    }
    proof {
        assert(kv.take(key.len() as int) =~= kv);
    }
    h
}

/// Whether two composite keys hold the same values.
pub fn same_key(a: &Vec<String>, b: &Vec<String>) -> (r: bool)
    ensures
        r == (a.deep_view() == b.deep_view()),
{
    if a.len() != b.len() {
        proof {
            assert(a.deep_view().len() != b.deep_view().len());
        }
        return false;
    }
    let mut i: usize = 0;
    while i < a.len()
        invariant
            i <= a.len(),
            a.len() == b.len(),
            forall|j: int| 0 <= j < i ==> a.deep_view()[j] == b.deep_view()[j],
        decreases a.len() - i,
    {
        if a[i] != b[i] {
            proof {
                assert(a.deep_view()[i as int] != b.deep_view()[i as int]);
            }
            return false;
        }
        i = i + 1;
    }
    proof {
        assert(a.deep_view() =~= b.deep_view());
    }
    true
}


/// Positions `i < n` at which `keys` holds `k` and `valid` is set, in order.
pub open spec fn occ(keys: Seq<Seq<Seq<char>>>, valid: Seq<bool>, k: Seq<Seq<char>>, n: int) -> Seq<usize>
    decreases n,
{
    if n <= 0 {
        Seq::empty()
    } else {
        let rest = occ(keys, valid, k, n - 1);
        if valid[n - 1] && keys[n - 1] == k {
            rest.push((n - 1) as usize)
        } else {
            rest
        }
    }
}

/// Facts about `occ`: it lists exactly the matching positions below `n`, in
/// increasing order, and a shorter prefix gives a prefix of it.
pub proof fn lemma_occ(keys: Seq<Seq<Seq<char>>>, valid: Seq<bool>, k: Seq<Seq<char>>, n: int)
    requires
        0 <= n <= keys.len(),
        keys.len() == valid.len(),
        n <= usize::MAX,
    ensures
        forall|t: int| 0 <= t < occ(keys, valid, k, n).len() ==> {
            let p = #[trigger] occ(keys, valid, k, n)[t];
            &&& p < n
            &&& valid[p as int]
            &&& keys[p as int] == k
        },
        forall|t1: int, t2: int|
            0 <= t1 < t2 < occ(keys, valid, k, n).len() ==> occ(keys, valid, k, n)[t1] < occ(keys, valid, k, n)[t2],
        forall|i: int|
            0 <= i < n && valid[i] && keys[i] == k ==> occ(keys, valid, k, n).contains(i as usize),
        occ(keys, valid, k, n).len() <= n,
    decreases n,
{
    if n > 0 {
        lemma_occ(keys, valid, k, n - 1);
        let rest = occ(keys, valid, k, n - 1);
        assert forall|i: int| 0 <= i < n && valid[i] && keys[i] == k implies occ(keys, valid, k, n).contains(i as usize) by {
            if i < n - 1 {
                let t = choose|t: int| 0 <= t < rest.len() && rest[t] == i as usize;
                assert(occ(keys, valid, k, n)[t] == i as usize);
            } else {
                assert(occ(keys, valid, k, n)[rest.len() as int] == i as usize);
            }
        }
    }
}

/// `occ` up to `m` is a prefix of `occ` up to `n` when `m <= n`.
pub proof fn lemma_occ_prefix(keys: Seq<Seq<Seq<char>>>, valid: Seq<bool>, k: Seq<Seq<char>>, m: int, n: int)
    requires
        0 <= m <= n,
    ensures
        occ(keys, valid, k, m).len() <= occ(keys, valid, k, n).len(),
        occ(keys, valid, k, n).take(occ(keys, valid, k, m).len() as int) == occ(keys, valid, k, m),
    decreases n - m,
{
    if m < n {
        lemma_occ_prefix(keys, valid, k, m, n - 1);
        let a = occ(keys, valid, k, m);
        let b = occ(keys, valid, k, n - 1);
        let c = occ(keys, valid, k, n);
        assert(c.take(a.len() as int) =~= b.take(a.len() as int));
    } else {
        assert(occ(keys, valid, k, n).take(occ(keys, valid, k, n).len() as int) =~= occ(keys, valid, k, n));
    }
}

/// Appending an event does not change `occ` below the old length.
pub proof fn lemma_occ_extend(keys: Seq<Seq<Seq<char>>>, valid: Seq<bool>, key: Seq<Seq<char>>, v: bool, k: Seq<Seq<char>>, n: int)
    requires
        0 <= n <= keys.len(),
        keys.len() == valid.len(),
    ensures
        occ(keys.push(key), valid.push(v), k, n) == occ(keys, valid, k, n),
    decreases n,
{
    if n > 0 {
        lemma_occ_extend(keys, valid, key, v, k, n - 1);
        assert(keys.push(key)[n - 1] == keys[n - 1]);
        assert(valid.push(v)[n - 1] == valid[n - 1]);
    }
}

/// The distinct counted keys among the first `n` events, in order of first occurrence.
pub open spec fn first_keys(keys: Seq<Seq<Seq<char>>>, valid: Seq<bool>, n: int) -> Seq<Seq<Seq<char>>>
    decreases n,
{
    if n <= 0 {
        Seq::empty()
    } else {
        let rest = first_keys(keys, valid, n - 1);
        if valid[n - 1] && occ(keys, valid, keys[n - 1], n - 1).len() == 0 {
            rest.push(keys[n - 1])
        } else {
            rest
        }
    }
}

/// Appending an event does not change `first_keys` below the old length.
pub proof fn lemma_first_keys_extend(keys: Seq<Seq<Seq<char>>>, valid: Seq<bool>, key: Seq<Seq<char>>, v: bool, n: int)
    requires
        0 <= n <= keys.len(),
        keys.len() == valid.len(),
    ensures
        first_keys(keys.push(key), valid.push(v), n) == first_keys(keys, valid, n),
    decreases n,
{
    if n > 0 {
        lemma_first_keys_extend(keys, valid, key, v, n - 1);
        lemma_occ_extend(keys, valid, key, v, keys[n - 1], n - 1);
        assert(keys.push(key)[n - 1] == keys[n - 1]);
        assert(valid.push(v)[n - 1] == valid[n - 1]);
    }
}

/// Distinct composite keys, each with the positions at which it occurred, in the
/// order in which the keys first occurred. Lookups go through a hash table.
pub struct KeyGroups {
    group_keys: Vec<Vec<String>>,
    members: Vec<Vec<usize>>,
    buckets: HashMap<u64, Vec<usize>>,
    count: usize,
    keys: Ghost<Seq<Seq<Seq<char>>>>,
    valid: Ghost<Seq<bool>>,
}

impl KeyGroups {
    /// The keys of all events so far.
    pub closed spec fn events(&self) -> Seq<Seq<Seq<char>>> {
        self.keys@
    }

    /// Whether each event so far took part in the grouping.
    pub closed spec fn counted(&self) -> Seq<bool> {
        self.valid@
    }

    /// The distinct keys, in order of first occurrence.
    pub closed spec fn keys_view(&self) -> Seq<Seq<Seq<char>>> {
        self.group_keys.deep_view()
    }

    /// The positions of the events that carry group `g`'s key.
    pub closed spec fn members_view(&self, g: int) -> Seq<usize> {
        self.members@[g]@
    }

    pub closed spec fn inv(&self) -> bool {
        &&& self.keys@.len() == self.count
        &&& self.valid@.len() == self.count
        &&& self.group_keys.len() == self.members.len()
        &&& self.group_keys.deep_view() == first_keys(self.keys@, self.valid@, self.count as int)
        &&& forall|g: int| 0 <= g < self.members.len() ==> #[trigger] self.members@[g]@ == occ(self.keys@, self.valid@, self.group_keys.deep_view()[g], self.count as int)
        &&& forall|g: int| 0 <= g < self.members.len() ==> #[trigger] self.members@[g]@.len() >= 1
        &&& forall|g1: int, g2: int| 0 <= g1 < g2 < self.group_keys.len() ==> self.group_keys.deep_view()[g1] != self.group_keys.deep_view()[g2]
        &&& forall|k: Seq<Seq<char>>| #[trigger] occ(self.keys@, self.valid@, k, self.count as int).len() > 0
            ==> exists|g: int| 0 <= g < self.group_keys.len() && self.group_keys.deep_view()[g] == k
        &&& forall|g: int| 0 <= g < self.group_keys.len() ==> {
            let h = key_hash(#[trigger] self.group_keys.deep_view()[g]);
            &&& self.buckets@.contains_key(h)
            &&& self.buckets@[h]@.contains(g as usize)
        }
        &&& forall|h: u64, t: int| #[trigger] self.buckets@.contains_key(h) && 0 <= t < self.buckets@[h]@.len() ==> {
            let g = #[trigger] self.buckets@[h]@[t];
            &&& g < self.group_keys.len()
            &&& key_hash(self.group_keys.deep_view()[g as int]) == h
        }
    }

    pub fn new() -> (r: Self)
        ensures
            r.inv(),
            r.events().len() == 0,
            r.counted().len() == 0,
            r.keys_view().len() == 0,
    {
        let group_keys: Vec<Vec<String>> = Vec::new();
        proof {
            assert(group_keys.deep_view() =~= Seq::<Seq<Seq<char>>>::empty());
        }
        KeyGroups {
            group_keys,
            members: Vec::new(),
            buckets: HashMap::new(),
            count: 0,
            keys: Ghost(Seq::empty()),
            valid: Ghost(Seq::empty()),
        }
    }

    /// The number of distinct keys.
    pub fn len(&self) -> (n: usize)
        requires
            self.inv(),
        ensures
            n == self.keys_view().len(),
    {
        self.group_keys.len()
    }

    /// The positions of group `g`'s events.
    pub fn members(&self, g: usize) -> (m: &Vec<usize>)
        requires
            self.inv(),
            g < self.keys_view().len(),
        ensures
            m@ == self.members_view(g as int),
            m@ == occ(self.events(), self.counted(), self.keys_view()[g as int], self.events().len() as int),
            m@.len() >= 1,
    {
        &self.members[g]
    }

    /// The key of group `g`.
    pub fn group_key(&self, g: usize) -> (k: &Vec<String>)
        requires
            self.inv(),
            g < self.keys_view().len(),
        ensures
            k.deep_view() == self.keys_view()[g as int],
    {
        &self.group_keys[g]
    }

    pub proof fn lemma_inv(&self)
        requires
            self.inv(),
        ensures
            self.events().len() == self.counted().len(),
            self.events().len() <= usize::MAX,
            forall|g: int| 0 <= g < self.keys_view().len() ==> #[trigger] self.members_view(g) == occ(self.events(), self.counted(), self.keys_view()[g], self.events().len() as int),
            forall|g1: int, g2: int| 0 <= g1 < g2 < self.keys_view().len() ==> self.keys_view()[g1] != self.keys_view()[g2],
            self.keys_view() == first_keys(self.events(), self.counted(), self.events().len() as int),
            forall|k: Seq<Seq<char>>| #[trigger] occ(self.events(), self.counted(), k, self.events().len() as int).len() > 0
                ==> exists|g: int| 0 <= g < self.keys_view().len() && self.keys_view()[g] == k,
    {
        assert forall|k: Seq<Seq<char>>| #[trigger] occ(self.events(), self.counted(), k, self.events().len() as int).len() > 0
            implies exists|g: int| 0 <= g < self.keys_view().len() && self.keys_view()[g] == k by {
            assert(occ(self.keys@, self.valid@, k, self.count as int).len() > 0);
            let g = choose|g: int| 0 <= g < self.group_keys.len() && self.group_keys.deep_view()[g] == k;
            assert(0 <= g < self.keys_view().len() && self.keys_view()[g] == k);
        }
    }

    /// The group holding `key`, if any event carried it.
    pub fn find(&self, key: &Vec<String>) -> (r: Option<usize>)
        requires
            self.inv(),
        ensures
            match r {
                Some(g) => g < self.keys_view().len() && self.keys_view()[g as int] == key.deep_view(),
                None => forall|g: int| 0 <= g < self.keys_view().len() ==> self.keys_view()[g] != key.deep_view(),
            },
    {
        let h = hash_key(key);
        match self.buckets.get(&h) {
            None => {
                proof {
                    assert forall|g: int| 0 <= g < self.keys_view().len() implies self.keys_view()[g] != key.deep_view() by {
                        if self.keys_view()[g] == key.deep_view() {
                            assert(self.buckets@.contains_key(key_hash(self.group_keys.deep_view()[g])));
                        }
                    }
                }
                None
            },
            Some(bucket) => {
                let mut t: usize = 0;
                while t < bucket.len()
                    invariant
                        self.inv(),
                        self.buckets@.contains_key(h),
                        bucket@ == self.buckets@[h]@,
                        h == key_hash(key.deep_view()),
                        t <= bucket.len(),
                        forall|s: int| 0 <= s < t ==> self.keys_view()[bucket@[s] as int] != key.deep_view(),
                    decreases bucket.len() - t,
                {
                    let g = bucket[t];
                    proof {
                        assert(self.buckets@.contains_key(h) && 0 <= t < self.buckets@[h]@.len());
                        let gg = self.buckets@[h]@[t as int];
                        assert(gg < self.group_keys.len());
                    }
                    if same_key(&self.group_keys[g], key) {
                        return Some(g);
                    }
                    t = t + 1;
                }
                proof {
                    assert forall|g: int| 0 <= g < self.keys_view().len() implies self.keys_view()[g] != key.deep_view() by {
                        if self.keys_view()[g] == key.deep_view() {
                            assert(self.buckets@[h]@.contains(g as usize));
                            let s = choose|s: int| 0 <= s < bucket@.len() && bucket@[s] == g as usize;
                        }
                    }
                }
                None
            },
        }
    }

    /// Records one more event with key `key`; the event takes part in the
    /// grouping only when `counted` is set. Tells whether an earlier counted
    /// event carried the same key.
    pub fn add(&mut self, key: Vec<String>, counted: bool) -> (seen: bool)
        requires
            old(self).inv(),
            old(self).events().len() < usize::MAX,
        ensures
            final(self).inv(),
            final(self).events() == old(self).events().push(key.deep_view()),
            final(self).counted() == old(self).counted().push(counted),
            seen == (occ(old(self).events(), old(self).counted(), key.deep_view(), old(self).events().len() as int).len() > 0),
            (counted && !seen) ==> final(self).keys_view() == old(self).keys_view().push(key.deep_view()),
            !(counted && !seen) ==> final(self).keys_view() == old(self).keys_view(),
    {
        let ghost old_keys = self.keys@;
        let ghost old_valid = self.valid@;
        let ghost n = self.count as int;
        let ghost kv = key.deep_view();
        proof {
            self.lemma_inv();
            lemma_occ(old_keys, old_valid, kv, n);
        }
        let found = self.find(&key);
        let seen = match found {
            Some(_) => true,
            None => false,
        };
        proof {
            match found {
                Some(g) => {
                    assert(self.members@[g as int]@.len() >= 1);
                    assert(self.members@[g as int]@ == occ(old_keys, old_valid, self.group_keys.deep_view()[g as int], n));
                    assert(occ(old_keys, old_valid, kv, n).len() >= 1);
                },
                None => {
                    if occ(old_keys, old_valid, kv, n).len() > 0 {
                        let g = choose|g: int| 0 <= g < self.keys_view().len() && self.keys_view()[g] == kv;
                    }
                },
            }
        }
        let pos = self.count;
        self.keys = Ghost(old_keys.push(kv));
        self.valid = Ghost(old_valid.push(counted));
        self.count = self.count + 1;
        let ghost new_keys = self.keys@;
        let ghost new_valid = self.valid@;
        proof {
            lemma_first_keys_extend(old_keys, old_valid, kv, counted, n);
            lemma_occ_extend(old_keys, old_valid, kv, counted, kv, n);
            assert(new_keys[n] == kv);
            assert(first_keys(new_keys, new_valid, n + 1) == if counted && !seen {
                first_keys(old_keys, old_valid, n).push(kv)
            } else {
                first_keys(old_keys, old_valid, n)
            });
            assert forall|k: Seq<Seq<char>>| #[trigger] occ(new_keys, new_valid, k, n + 1) == if counted && k == kv {
                occ(old_keys, old_valid, k, n).push(pos)
            } else {
                occ(old_keys, old_valid, k, n)
            } by {
                lemma_occ_extend(old_keys, old_valid, kv, counted, k, n);
                assert(new_keys[n] == kv);
                assert(new_valid[n] == counted);
            }
        }
        if counted {
            match found {
                Some(g) => {
                    let ghost old_members = self.members@;
                    self.members[g].push(pos);
                    proof {
                        assert forall|g2: int| 0 <= g2 < self.members.len() implies #[trigger] self.members@[g2]@ == occ(new_keys, new_valid, self.group_keys.deep_view()[g2], n + 1) by {
                            if g2 != g {
                                assert(self.group_keys.deep_view()[g2] != kv);
                                assert(self.members@[g2] == old_members[g2]);
                            }
                        }
                        assert forall|k: Seq<Seq<char>>| #[trigger] occ(new_keys, new_valid, k, n + 1).len() > 0
                            implies exists|g2: int| 0 <= g2 < self.group_keys.len() && self.group_keys.deep_view()[g2] == k by {
                            if k != kv {
                                assert(occ(old_keys, old_valid, k, n).len() > 0);
                            }
                        }
                    }
                },
                None => {
                    let h = hash_key(&key);
                    let gid = self.group_keys.len();
                    let ghost old_gk = self.group_keys.deep_view();
                    let ghost old_members = self.members@;
                    let ghost old_buckets = self.buckets@;
                    self.group_keys.push(key);
                    let mut single: Vec<usize> = Vec::new();
                    single.push(pos);
                    self.members.push(single);
                    let mut bucket: Vec<usize> = match self.buckets.remove(&h) {
                        Some(b) => b,
                        None => Vec::new(),
                    };
                    let ghost old_bucket = bucket@;
                    bucket.push(gid);
                    self.buckets.insert(h, bucket);
                    proof {
                        assert(self.group_keys.deep_view() =~= old_gk.push(kv));
                        assert(occ(old_keys, old_valid, kv, n).len() == 0);
                        assert(occ(old_keys, old_valid, kv, n).push(pos) =~= seq![pos]);
                        assert forall|g2: int| 0 <= g2 < self.members.len() implies #[trigger] self.members@[g2]@ == occ(new_keys, new_valid, self.group_keys.deep_view()[g2], n + 1) by {
                            if g2 < gid {
                                assert(self.group_keys.deep_view()[g2] == old_gk[g2]);
                                assert(old_gk[g2] != kv);
                                assert(self.members@[g2] == old_members[g2]);
                            } else {
                                assert(self.members@[g2]@ =~= seq![pos]);
                            }
                        }
                        assert forall|g2: int| 0 <= g2 < self.members.len() implies #[trigger] self.members@[g2]@.len() >= 1 by {
                            if g2 < gid {
                                assert(self.members@[g2] == old_members[g2]);
                            }
                        }
                        assert forall|k: Seq<Seq<char>>| #[trigger] occ(new_keys, new_valid, k, n + 1).len() > 0
                            implies exists|g2: int| 0 <= g2 < self.group_keys.len() && self.group_keys.deep_view()[g2] == k by {
                            if k != kv {
                                assert(occ(old_keys, old_valid, k, n).len() > 0);
                                let g3 = choose|g3: int| 0 <= g3 < old_gk.len() && old_gk[g3] == k;
                                assert(self.group_keys.deep_view()[g3] == k);
                            } else {
                                assert(self.group_keys.deep_view()[gid as int] == k);
                            }
                        }
                        assert forall|g1: int, g2: int| 0 <= g1 < g2 < self.group_keys.len() implies self.group_keys.deep_view()[g1] != self.group_keys.deep_view()[g2] by {
                            if g2 < gid {
                                assert(old_gk[g1] != old_gk[g2]);
                            }
                        }
                        assert forall|g2: int| 0 <= g2 < self.group_keys.len() implies {
                            let hh = key_hash(#[trigger] self.group_keys.deep_view()[g2]);
                            &&& self.buckets@.contains_key(hh)
                            &&& self.buckets@[hh]@.contains(g2 as usize)
                        } by {
                            let hh = key_hash(self.group_keys.deep_view()[g2]);
                            if g2 < gid {
                                assert(self.group_keys.deep_view()[g2] == old_gk[g2]);
                                assert(old_buckets.contains_key(hh) && old_buckets[hh]@.contains(g2 as usize));
                                if hh == h {
                                    let t = choose|t: int| 0 <= t < old_buckets[hh]@.len() && old_buckets[hh]@[t] == g2 as usize;
                                    assert(self.buckets@[hh]@[t] == g2 as usize);
                                }
                            } else {
                                assert(self.buckets@[h]@[old_bucket.len() as int] == gid);
                            }
                        }
                        assert forall|hh: u64, t: int| #[trigger] self.buckets@.contains_key(hh) && 0 <= t < self.buckets@[hh]@.len() implies {
                            let g2 = #[trigger] self.buckets@[hh]@[t];
                            &&& g2 < self.group_keys.len()
                            &&& key_hash(self.group_keys.deep_view()[g2 as int]) == hh
                        } by {
                            if hh == h {
                                if t < old_bucket.len() {
                                    assert(old_buckets.contains_key(h) && 0 <= t < old_buckets[h]@.len());
                                    let g2 = old_buckets[h]@[t];
                                    assert(self.group_keys.deep_view()[g2 as int] == old_gk[g2 as int]);
                                }
                            } else {
                                assert(old_buckets.contains_key(hh) && 0 <= t < old_buckets[hh]@.len());
                                let g2 = old_buckets[hh]@[t];
                                assert(self.group_keys.deep_view()[g2 as int] == old_gk[g2 as int]);
                            }
                        }
                    }
                },
            }
        } else {
            proof {
                assert forall|k: Seq<Seq<char>>| #[trigger] occ(new_keys, new_valid, k, n + 1).len() > 0
                    implies exists|g2: int| 0 <= g2 < self.group_keys.len() && self.group_keys.deep_view()[g2] == k by {
                    assert(occ(old_keys, old_valid, k, n).len() > 0);
                }
            }
        }
        seen
    }
}

} // verus!
