//! The interface's image cache: decoded covers by key, the least recently
//! used dropped first once the cache is full, so the covers in view survive
//! a backfill of the ones that are not.
use vstd::prelude::*;
use crate::art::{texts_view, without_key};
use crate::memo::KeyedMemo;

verus! {

/// How many decoded covers the interface keeps.
pub const UI_IMAGE_CACHE_LIMIT: usize = 8192;

proof fn lemma_without_key_contains(s: Seq<Seq<char>>, k: Seq<char>, x: Seq<char>)
    ensures
        without_key(s, k).contains(x) <==> (s.contains(x) && x != k),
    decreases s.len(),
{
    if s.len() > 0 {
        lemma_without_key_contains(s.drop_last(), k, x);
        let w = without_key(s.drop_last(), k);
        if s.contains(x) && x != k {
            let i = choose|i: int| 0 <= i < s.len() && s[i] == x;
            if i < s.len() - 1 {
                assert(s.drop_last()[i] == x);
            }
        }
        if s.drop_last().contains(x) {
            let i = choose|i: int| 0 <= i < s.drop_last().len() && s.drop_last()[i] == x;
            assert(s[i] == x);
        }
        if s.last() != k {
            if w.push(s.last()).contains(x) {
                let i = choose|i: int| 0 <= i < w.len() + 1 && w.push(s.last())[i] == x;
                if i < w.len() {
                    assert(w[i] == x);
                }
            }
            if w.contains(x) {
                let i = choose|i: int| 0 <= i < w.len() && w[i] == x;
                assert(w.push(s.last())[i] == x);
            }
            if x == s.last() {
                assert(w.push(s.last())[w.len() as int] == x);
            }
        }
    }
}

proof fn lemma_without_key_no_dups(s: Seq<Seq<char>>, k: Seq<char>)
    requires
        s.no_duplicates(),
    ensures
        without_key(s, k).no_duplicates(),
    decreases s.len(),
{
    if s.len() > 0 {
        let d = s.drop_last();
        assert(d.no_duplicates()) by {
            assert forall|i: int, j: int| 0 <= i < d.len() && 0 <= j < d.len() && i != j implies d[i] != d[j] by {
                assert(s[i] == d[i] && s[j] == d[j]);
            }
        }
        lemma_without_key_no_dups(d, k);
        if s.last() != k {
            let w = without_key(d, k);
            lemma_without_key_contains(d, k, s.last());
            assert(!d.contains(s.last())) by {
                if d.contains(s.last()) {
                    let i = choose|i: int| 0 <= i < d.len() && d[i] == s.last();
                    assert(s[i] == s[s.len() - 1]);
                }
            }
            assert forall|i: int, j: int| 0 <= i < w.len() + 1 && 0 <= j < w.len() + 1 && i != j implies w.push(
                s.last(),
            )[i] != w.push(s.last())[j] by {
                if i == w.len() {
                    assert(!w.contains(s.last()));
                    assert(w.push(s.last())[j] == w[j]);
                } else if j == w.len() {
                    assert(!w.contains(s.last()));
                    assert(w.push(s.last())[i] == w[i]);
                } else {
                    assert(w.push(s.last())[i] == w[i]);
                    assert(w.push(s.last())[j] == w[j]);
                }
            }
        }
    }
}

proof fn lemma_without_key_absent(s: Seq<Seq<char>>, k: Seq<char>)
    requires
        !s.contains(k),
    ensures
        without_key(s, k) == s,
    decreases s.len(),
{
    if s.len() > 0 {
        assert(!s.drop_last().contains(k)) by {
            if s.drop_last().contains(k) {
                let i = choose|i: int| 0 <= i < s.drop_last().len() && s.drop_last()[i] == k;
                assert(s[i] == k);
            }
        }
        lemma_without_key_absent(s.drop_last(), k);
        assert(s.last() != k) by {
            if s.last() == k {
                assert(s[s.len() - 1] == k);
            }
        }
        assert(s.drop_last().push(s.last()) =~= s);
    }
}

proof fn lemma_without_key_at(s: Seq<Seq<char>>, k: Seq<char>, p: int)
    requires
        s.no_duplicates(),
        0 <= p < s.len(),
        s[p] == k,
    ensures
        without_key(s, k) =~= s.remove(p),
    decreases s.len(),
{
    let d = s.drop_last();
    assert(d.no_duplicates()) by {
        assert forall|i: int, j: int| 0 <= i < d.len() && 0 <= j < d.len() && i != j implies d[i] != d[j] by {
            assert(s[i] == d[i] && s[j] == d[j]);
        }
    }
    if p == s.len() - 1 {
        assert(!d.contains(k)) by {
            if d.contains(k) {
                let i = choose|i: int| 0 <= i < d.len() && d[i] == k;
                assert(s[i] == s[p]);
            }
        }
        lemma_without_key_absent(d, k);
        assert(s.remove(p) =~= d);
    } else {
        lemma_without_key_at(d, k, p);
        assert(s.last() != k) by {
            assert(s[s.len() - 1] != s[p]);
        }
        assert(s.remove(p) =~= d.remove(p).push(s.last()));
    }
}

/// Images by key, at most `limit` of them, with the keys from least to most
/// recently used.
pub struct UiImageCache<V> {
    images: KeyedMemo<V>,
    order: Vec<String>,
    limit: usize,
}

impl<V> UiImageCache<V> {
    pub closed spec fn spec_images(&self) -> Map<Seq<char>, V> {
        self.images@
    }

    /// The keys, least recently used first.
    pub closed spec fn spec_order(&self) -> Seq<Seq<char>> {
        texts_view(self.order@)
    }

    pub closed spec fn spec_limit(&self) -> usize {
        self.limit
    }

    /// Every held image has one place in the order, and no more than the
    /// limit are held.
    pub closed spec fn wf(&self) -> bool {
        &&& self.images.wf()
        &&& texts_view(self.order@).no_duplicates()
        &&& forall|x: Seq<char>| self.images@.contains_key(x) <==> texts_view(self.order@).contains(x)
        &&& self.order@.len() <= self.limit
    }

    /// An empty cache of `UI_IMAGE_CACHE_LIMIT` images.
    pub fn new() -> (r: Self)
        ensures
            r.wf(),
            r.spec_limit() == UI_IMAGE_CACHE_LIMIT,
            r.spec_images() == Map::<Seq<char>, V>::empty(),
            r.spec_order() == Seq::<Seq<char>>::empty(),
    {
        Self::with_limit(UI_IMAGE_CACHE_LIMIT)
    }

    /// An empty cache of at most `limit` images.
    pub fn with_limit(limit: usize) -> (r: Self)
        ensures
            r.wf(),
            r.spec_limit() == limit,
            r.spec_images() == Map::<Seq<char>, V>::empty(),
            r.spec_order() == Seq::<Seq<char>>::empty(),
    {
        let r = UiImageCache { images: KeyedMemo::new(), order: Vec::new(), limit };
        assert(r.spec_order() =~= Seq::<Seq<char>>::empty());
        r
    }

    fn order_position(&self, key: &str) -> (r: Option<usize>)
        ensures
            match r {
                Some(p) => p < self.order@.len() && self.spec_order()[p as int] == key@,
                None => !self.spec_order().contains(key@),
            },
    {
        let wanted = key.to_string();
        let mut i: usize = 0;
        while i < self.order.len()
            invariant
                i <= self.order@.len(),
                wanted@ == key@,
                forall|j: int| 0 <= j < i ==> self.spec_order()[j] != key@,
            decreases self.order.len() - i,
        {
            if self.order[i] == wanted {
                return Some(i);
            }
            i += 1;
        }
        assert(!self.spec_order().contains(key@)) by {
            if self.spec_order().contains(key@) {
                let j = choose|j: int| 0 <= j < self.spec_order().len() && self.spec_order()[j] == key@;
            }
        }
        None
    }

    /// Makes `key` the most recently used, when it is held.
    fn touch(&mut self, key: &str)
        requires
            old(self).wf(),
        ensures
            final(self).wf(),
            final(self).spec_images() == old(self).spec_images(),
            final(self).spec_limit() == old(self).spec_limit(),
            final(self).spec_order() == if old(self).spec_order().contains(key@) {
                without_key(old(self).spec_order(), key@).push(key@)
            } else {
                old(self).spec_order()
            },
    {
        if let Some(p) = self.order_position(key) {
            let ghost before = self.spec_order();
            proof {
                lemma_without_key_at(before, key@, p as int);
                assert(before[p as int] == key@);
                assert(before.contains(key@));
            }
            let known = self.order.remove(p);
            assert(texts_view(self.order@) =~= before.remove(p as int));
            self.order.push(known);
            assert(self.spec_order() =~= without_key(before, key@).push(key@));
            proof {
                lemma_without_key_no_dups(before, key@);
                assert forall|x: Seq<char>| self.images@.contains_key(x) <==> self.spec_order().contains(x) by {
                    assert(self.images@ == old(self).images@);
                    assert(old(self).images@.contains_key(x) <==> before.contains(x));
                    lemma_without_key_contains(before, key@, x);
                    let w = without_key(before, key@);
                    if w.push(key@).contains(x) && x != key@ {
                        let i = choose|i: int| 0 <= i < w.len() + 1 && w.push(key@)[i] == x;
                        assert(w[i] == x);
                    }
                    if w.contains(x) {
                        let i = choose|i: int| 0 <= i < w.len() && w[i] == x;
                        assert(w.push(key@)[i] == x);
                    }
                    if x == key@ {
                        assert(w.push(key@)[w.len() as int] == x);
                    }
                }
                lemma_without_key_contains(before, key@, key@);
                assert(!without_key(before, key@).contains(key@));
                assert(self.spec_order().no_duplicates()) by {
                    let w = without_key(before, key@);
                    assert forall|i: int, j: int| 0 <= i < w.len() + 1 && 0 <= j < w.len() + 1 && i != j implies w.push(
                        key@,
                    )[i] != w.push(key@)[j] by {
                        if i == w.len() {
                            assert(w.push(key@)[j] == w[j]);
                        } else if j == w.len() {
                            assert(w.push(key@)[i] == w[i]);
                        } else {
                            assert(w.push(key@)[i] == w[i]);
                            assert(w.push(key@)[j] == w[j]);
                        }
                    }
                }
            }
        }
    }

    /// The image held for `key`, which becomes the most recently used.
    pub fn get(&mut self, key: &str) -> (r: Option<&V>)
        requires
            old(self).wf(),
        ensures
            final(self).wf(),
            final(self).spec_images() == old(self).spec_images(),
            final(self).spec_limit() == old(self).spec_limit(),
            match r {
                Some(v) => old(self).spec_images().contains_key(key@) && *v == old(self).spec_images()[key@],
                None => !old(self).spec_images().contains_key(key@),
            },
            final(self).spec_order() == if old(self).spec_images().contains_key(key@) {
                without_key(old(self).spec_order(), key@).push(key@)
            } else {
                old(self).spec_order()
            },
    {
        self.touch(key);
        self.images.get(key)
    }

    /// Holds `image` for `key` as the most recently used, dropping the least
    /// recently used image when that makes one too many.
    pub fn insert(&mut self, key: String, image: V)
        requires
            old(self).wf(),
        ensures
            final(self).wf(),
            final(self).spec_limit() == old(self).spec_limit(),
            ({
                let touched = if old(self).spec_images().contains_key(key@) {
                    without_key(old(self).spec_order(), key@).push(key@)
                } else {
                    old(self).spec_order().push(key@)
                };
                let held = old(self).spec_images().insert(key@, image);
                if touched.len() > old(self).spec_limit() {
                    &&& final(self).spec_order() == touched.drop_first()
                    &&& final(self).spec_images() == held.remove(touched[0])
                } else {
                    &&& final(self).spec_order() == touched
                    &&& final(self).spec_images() == held
                }
            }),
    {
        let known = self.images.get(key.as_str()).is_some();
        let ghost order0 = self.spec_order();
        if known {
            self.touch(key.as_str());
            self.images.insert(key, image);
        } else {
            let ghost before = self.spec_order();
            assert(!before.contains(key@));
            self.order.push(key.clone());
            assert(self.spec_order() =~= before.push(key@));
            self.images.insert(key, image);
        }
        let ghost touched = self.spec_order();
        let ghost held = self.images@;
        proof {
            assert forall|x: Seq<char>| held.contains_key(x) <==> touched.contains(x) by {
                if known {
                    lemma_without_key_contains(order0, key@, x);
                    let w = without_key(order0, key@);
                    if w.push(key@).contains(x) && x != key@ {
                        let i = choose|i: int| 0 <= i < w.len() + 1 && w.push(key@)[i] == x;
                        assert(w[i] == x);
                    }
                    if w.contains(x) {
                        let i = choose|i: int| 0 <= i < w.len() && w[i] == x;
                        assert(w.push(key@)[i] == x);
                    }
                    if x == key@ {
                        assert(w.push(key@)[w.len() as int] == x);
                    }
                } else {
                    if order0.push(key@).contains(x) && x != key@ {
                        let i = choose|i: int| 0 <= i < order0.len() + 1 && order0.push(key@)[i] == x;
                        assert(order0[i] == x);
                    }
                    if order0.contains(x) {
                        let i = choose|i: int| 0 <= i < order0.len() && order0[i] == x;
                        assert(order0.push(key@)[i] == x);
                    }
                    if x == key@ {
                        assert(order0.push(key@)[order0.len() as int] == x);
                    }
                }
            }
            assert(touched.no_duplicates()) by {
                if !known {
                    assert forall|i: int, j: int| 0 <= i < touched.len() && 0 <= j < touched.len() && i != j implies touched[i] != touched[j] by {
                        if i == order0.len() {
                            assert(touched[j] == order0[j]);
                            assert(order0.contains(order0[j]));
                        } else if j == order0.len() {
                            assert(touched[i] == order0[i]);
                            assert(order0.contains(order0[i]));
                        } else {
                            assert(touched[i] == order0[i]);
                            assert(touched[j] == order0[j]);
                        }
                    }
                }
            }
            if known {
                lemma_without_key_len(order0, key@);
            }
            assert(touched.len() <= self.limit + 1);
        }
        if self.order.len() > self.limit {
            let ghost before = self.spec_order();
            let evicted = self.order.remove(0);
            assert(self.spec_order() =~= before.drop_first());
            self.images.remove(evicted.as_str());
            proof {
                assert(evicted@ == before[0]);
                assert forall|x: Seq<char>| self.images@.contains_key(x) <==> self.spec_order().contains(x) by {
                    if before.drop_first().contains(x) {
                        let i = choose|i: int| 0 <= i < before.drop_first().len() && before.drop_first()[i] == x;
                        assert(before[i + 1] == x);
                        assert(x != before[0]);
                        assert(before.contains(x));
                    }
                    if before.contains(x) && x != before[0] {
                        let i = choose|i: int| 0 <= i < before.len() && before[i] == x;
                        assert(i != 0);
                        assert(before.drop_first()[i - 1] == x);
                    }
                }
                assert(self.spec_order().no_duplicates()) by {
                    let d = before.drop_first();
                    assert forall|i: int, j: int| 0 <= i < d.len() && 0 <= j < d.len() && i != j implies d[i] != d[j] by {
                        assert(d[i] == before[i + 1] && d[j] == before[j + 1]);
                    }
                }
            }
        }
    }

    /// Drops every image.
    pub fn clear(&mut self)
        ensures
            final(self).wf(),
            final(self).spec_limit() == old(self).spec_limit(),
            final(self).spec_images() == Map::<Seq<char>, V>::empty(),
            final(self).spec_order() == Seq::<Seq<char>>::empty(),
    {
        self.images.clear();
        self.order.clear();
        assert(self.spec_order() =~= Seq::<Seq<char>>::empty());
    }
}

proof fn lemma_without_key_len(s: Seq<Seq<char>>, k: Seq<char>)
    requires
        s.no_duplicates(),
        s.contains(k),
    ensures
        without_key(s, k).len() == s.len() - 1,
{
    let p = choose|p: int| 0 <= p < s.len() && s[p] == k;
    lemma_without_key_at(s, k, p);
}

/// The cache never holds more images than its limit, the image just stored
/// is held, and what is dropped is the least recently used.
pub proof fn cache_keeps_the_most_recent(order: Seq<Seq<char>>, limit: usize, key: Seq<char>)
    requires
        order.len() <= limit,
        limit > 0,
        order.no_duplicates(),
    ensures
        ({
            let touched = if order.contains(key) {
                without_key(order, key).push(key)
            } else {
                order.push(key)
            };
            let kept = if touched.len() > limit {
                touched.drop_first()
            } else {
                touched
            };
            &&& kept.len() <= limit
            &&& kept.contains(key)
            &&& kept.last() == key
        }),
{
    let touched = if order.contains(key) {
        without_key(order, key).push(key)
    } else {
        order.push(key)
    };
    if order.contains(key) {
        lemma_without_key_len(order, key);
    }
    let kept = if touched.len() > limit {
        touched.drop_first()
    } else {
        touched
    };
    assert(kept[kept.len() - 1] == key);
}

} // verus!
