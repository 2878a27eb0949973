//! The images that the renderer keeps in memory between posts: by the blob
//! or the source they came from, with the message attachments that they
//! were read for.
use vstd::prelude::*;

use crate::render::ResolvedImage;

verus! {

// ----------------------------------------------------------------------
// Maps held as lists of distinct keys
// ----------------------------------------------------------------------
/// The map of a list of `(key, value)` pairs.
pub open spec fn assoc_map<K, V>(s: Seq<(K, V)>) -> Map<K, V>
    decreases s.len(),
{
    if s.len() == 0 {
        Map::empty()
    } else {
        assoc_map(s.drop_last()).insert(s.last().0, s.last().1)
    }
}

/// No key occurs twice.
pub open spec fn distinct_keys<K, V>(s: Seq<(K, V)>) -> bool {
    forall|i: int, j: int| 0 <= i < j < s.len() ==> #[trigger] s[i].0 != #[trigger] s[j].0
}

pub proof fn lemma_assoc_dom<K, V>(s: Seq<(K, V)>, k: K)
    ensures
        assoc_map(s).contains_key(k) <==> exists|i: int| 0 <= i < s.len() && #[trigger] s[i].0 == k,
    decreases s.len(),
{
    if s.len() > 0 {
        lemma_assoc_dom(s.drop_last(), k);
        if assoc_map(s.drop_last()).contains_key(k) {
            let i = choose|i: int| 0 <= i < s.drop_last().len() && #[trigger] s.drop_last()[i].0 == k;
            assert(s[i].0 == k);
        }
        if exists|i: int| 0 <= i < s.len() && #[trigger] s[i].0 == k {
            let i = choose|i: int| 0 <= i < s.len() && #[trigger] s[i].0 == k;
            if i < s.len() - 1 {
                assert(s.drop_last()[i].0 == k);
            }
        }
    }
}

pub proof fn lemma_assoc_index<K, V>(s: Seq<(K, V)>, i: int)
    requires
        distinct_keys(s),
        0 <= i < s.len(),
    ensures
        assoc_map(s).contains_key(s[i].0),
        assoc_map(s)[s[i].0] == s[i].1,
    decreases s.len(),
{
    if i < s.len() - 1 {
        assert(s.drop_last()[i] == s[i]);
        lemma_assoc_index(s.drop_last(), i);
        assert(s[i].0 != s.last().0);
    }
}

pub proof fn lemma_assoc_push<K, V>(s: Seq<(K, V)>, k: K, v: V)
    requires
        distinct_keys(s),
        !assoc_map(s).contains_key(k),
    ensures
        distinct_keys(s.push((k, v))),
        assoc_map(s.push((k, v))) == assoc_map(s).insert(k, v),
{
    lemma_assoc_dom(s, k);
    assert(s.push((k, v)).drop_last() =~= s);
    assert forall|i: int, j: int| 0 <= i < j < s.push((k, v)).len() implies #[trigger] s.push(
        (k, v),
    )[i].0 != #[trigger] s.push((k, v))[j].0 by {
        if j == s.len() {
            assert(s.push((k, v))[i] == s[i]);
        } else {
            assert(s.push((k, v))[i] == s[i]);
            assert(s.push((k, v))[j] == s[j]);
        }
    }
}

pub proof fn lemma_assoc_update<K, V>(s: Seq<(K, V)>, i: int, v: V)
    requires
        distinct_keys(s),
        0 <= i < s.len(),
    ensures
        distinct_keys(s.update(i, (s[i].0, v))),
        assoc_map(s.update(i, (s[i].0, v))) == assoc_map(s).insert(s[i].0, v),
    decreases s.len(),
{
    let t = s.update(i, (s[i].0, v));
    assert forall|a: int, b: int| 0 <= a < b < t.len() implies #[trigger] t[a].0 != #[trigger] t[b].0 by {
        assert(t[a].0 == s[a].0);
        assert(t[b].0 == s[b].0);
    }
    if i == s.len() - 1 {
        assert(t.drop_last() =~= s.drop_last());
        assert(assoc_map(t) =~= assoc_map(s).insert(s[i].0, v));
    } else {
        assert(t.drop_last() =~= s.drop_last().update(i, (s[i].0, v)));
        assert(s.drop_last()[i] == s[i]);
        lemma_assoc_update(s.drop_last(), i, v);
        assert(s[i].0 != s.last().0);
        assert(assoc_map(t) =~= assoc_map(s).insert(s[i].0, v));
    }
}

pub proof fn lemma_assoc_remove<K, V>(s: Seq<(K, V)>, i: int)
    requires
        distinct_keys(s),
        0 <= i < s.len(),
    ensures
        distinct_keys(s.remove(i)),
        assoc_map(s.remove(i)) == assoc_map(s).remove(s[i].0),
    decreases s.len(),
{
    let t = s.remove(i);
    s.remove_ensures(i);
    assert forall|a: int, b: int| 0 <= a < b < t.len() implies #[trigger] t[a].0 != #[trigger] t[b].0 by {
        let a0 = if a < i { a } else { a + 1 };
        let b0 = if b < i { b } else { b + 1 };
        assert(t[a] == s[a0]);
        assert(t[b] == s[b0]);
    }
    if i == s.len() - 1 {
        assert(t =~= s.drop_last());
        lemma_assoc_dom(s.drop_last(), s[i].0);
        assert forall|a: int| 0 <= a < s.drop_last().len() implies #[trigger] s.drop_last()[a].0
            != s[i].0 by {
            assert(s.drop_last()[a] == s[a]);
        }
        assert(assoc_map(t) =~= assoc_map(s).remove(s[i].0));
    } else {
        assert(t.drop_last() =~= s.drop_last().remove(i));
        assert(t.last() == s.last());
        assert(s.drop_last()[i] == s[i]);
        assert forall|a: int, b: int| 0 <= a < b < s.drop_last().len() implies #[trigger] s.drop_last()[a].0
            != #[trigger] s.drop_last()[b].0 by {
            assert(s.drop_last()[a] == s[a]);
            assert(s.drop_last()[b] == s[b]);
        }
        lemma_assoc_remove(s.drop_last(), i);
        assert(s[i].0 != s.last().0);
        assert(assoc_map(t) =~= assoc_map(s).remove(s[i].0));
    }
}

/// The pairs of `s` that `keep` keeps, in order.
pub open spec fn assoc_filter<K, V>(s: Seq<(K, V)>, keep: spec_fn(K, V) -> bool) -> Seq<(K, V)>
    decreases s.len(),
{
    if s.len() == 0 {
        Seq::empty()
    } else {
        let prev = assoc_filter(s.drop_last(), keep);
        if keep(s.last().0, s.last().1) {
            prev.push(s.last())
        } else {
            prev
        }
    }
}

pub proof fn lemma_assoc_filter<K, V>(s: Seq<(K, V)>, keep: spec_fn(K, V) -> bool)
    requires
        distinct_keys(s),
    ensures
        distinct_keys(assoc_filter(s, keep)),
        forall|k: K|
            #[trigger] assoc_map(assoc_filter(s, keep)).contains_key(k) <==> (assoc_map(s).contains_key(k)
                && keep(k, assoc_map(s)[k])),
        forall|k: K|
            #[trigger] assoc_map(assoc_filter(s, keep)).contains_key(k) ==> assoc_map(
                assoc_filter(s, keep),
            )[k] == assoc_map(s)[k],
        forall|i: int|
            0 <= i < assoc_filter(s, keep).len() ==> exists|j: int|
                0 <= j < s.len() && #[trigger] assoc_filter(s, keep)[i] == s[j],
    decreases s.len(),
{
    if s.len() > 0 {
        let d = s.drop_last();
        assert forall|a: int, b: int| 0 <= a < b < d.len() implies #[trigger] d[a].0 != #[trigger] d[b].0 by {
            assert(d[a] == s[a]);
            assert(d[b] == s[b]);
        }
        lemma_assoc_filter(d, keep);
        let prev = assoc_filter(d, keep);
        let last = s.last();
        assert forall|k: int| 0 <= k < d.len() implies #[trigger] d[k].0 != last.0 by {
            assert(d[k] == s[k]);
        }
        lemma_assoc_dom(d, last.0);
        if keep(last.0, last.1) {
            lemma_assoc_dom(prev, last.0);
            assert forall|i: int| 0 <= i < prev.len() implies #[trigger] prev[i].0 != last.0 by {
                let j = choose|j: int| 0 <= j < d.len() && #[trigger] prev[i] == d[j];
                assert(d[j].0 != last.0);
            }
            lemma_assoc_push(prev, last.0, last.1);
            assert(prev.push(last) == prev.push((last.0, last.1)));
            assert forall|i: int| 0 <= i < prev.push(last).len() implies exists|j: int|
                0 <= j < s.len() && #[trigger] prev.push(last)[i] == s[j] by {
                if i < prev.len() {
                    let j = choose|j: int| 0 <= j < d.len() && #[trigger] prev[i] == d[j];
                    assert(prev.push(last)[i] == s[j]);
                } else {
                    assert(prev.push(last)[i] == s[s.len() - 1]);
                }
            }
        } else {
            assert forall|i: int| 0 <= i < prev.len() implies exists|j: int|
                0 <= j < s.len() && #[trigger] prev[i] == s[j] by {
                let j = choose|j: int| 0 <= j < d.len() && #[trigger] prev[i] == d[j];
                assert(prev[i] == s[j]);
            }
        }
    }
}

// ----------------------------------------------------------------------
// The cache
// ----------------------------------------------------------------------
/// What an image was read from: a stored blob, or a source (a path, a data
/// URL, or a tagged video preview).
#[derive(Debug, Clone, PartialEq, Eq)]
pub enum ImageCacheKey {
    Blob(u128),
    Source(String),
}

pub enum KeyView {
    Blob(u128),
    Source(Seq<char>),
}

pub open spec fn key_view(k: ImageCacheKey) -> KeyView {
    match k {
        ImageCacheKey::Blob(b) => KeyView::Blob(b),
        ImageCacheKey::Source(s) => KeyView::Source(s@),
    }
}

pub open spec fn entries_seq(v: Seq<(ImageCacheKey, ResolvedImage)>) -> Seq<(KeyView, ResolvedImage)> {
    v.map_values(|e: (ImageCacheKey, ResolvedImage)| (key_view(e.0), e.1))
}

pub open spec fn sources_seq(v: Seq<((u128, usize), ImageCacheKey)>) -> Seq<((u128, usize), KeyView)> {
    v.map_values(|e: ((u128, usize), ImageCacheKey)| (e.0, key_view(e.1)))
}

fn same_key(a: &ImageCacheKey, b: &ImageCacheKey) -> (r: bool)
    ensures
        r == (key_view(*a) == key_view(*b)),
{
    match (a, b) {
        (ImageCacheKey::Blob(x), ImageCacheKey::Blob(y)) => *x == *y,
        (ImageCacheKey::Source(x), ImageCacheKey::Source(y)) => crate::text::same_text(x.as_str(), y.as_str()),
        _ => false,
    }
}

fn copy_key(k: &ImageCacheKey) -> (r: ImageCacheKey)
    ensures
        key_view(r) == key_view(*k),
{
    match k {
        ImageCacheKey::Blob(b) => ImageCacheKey::Blob(*b),
        ImageCacheKey::Source(s) => ImageCacheKey::Source(crate::text::owned(s.as_str())),
    }
}

/// The images kept in memory, by what they were read from, and for each
/// message attachment (by message and index) the key of its image.
pub struct ImageMemoryCache {
    entries: Vec<(ImageCacheKey, ResolvedImage)>,
    attachment_sources: Vec<((u128, usize), ImageCacheKey)>,
}

impl ImageMemoryCache {
    /// The images kept, by key.
    pub closed spec fn images(&self) -> Map<KeyView, ResolvedImage> {
        assoc_map(entries_seq(self.entries@))
    }

    /// The key of each attachment's image.
    pub closed spec fn sources(&self) -> Map<(u128, usize), KeyView> {
        assoc_map(sources_seq(self.attachment_sources@))
    }

    pub closed spec fn wf(&self) -> bool {
        distinct_keys(entries_seq(self.entries@)) && distinct_keys(sources_seq(self.attachment_sources@))
    }

    pub fn new() -> (r: Self)
        ensures
            r.wf(),
            r.images() == Map::<KeyView, ResolvedImage>::empty(),
            r.sources() == Map::<(u128, usize), KeyView>::empty(),
    {
        let r = ImageMemoryCache { entries: Vec::new(), attachment_sources: Vec::new() };
        assert(entries_seq(r.entries@) =~= Seq::empty());
        assert(sources_seq(r.attachment_sources@) =~= Seq::empty());
        r
    }

    fn find_entry(&self, key: &ImageCacheKey) -> (r: Option<usize>)
        requires
            self.wf(),
        ensures
            match r {
                Some(i) => i < self.entries@.len() && entries_seq(self.entries@)[i as int].0 == key_view(*key),
                None => !self.images().contains_key(key_view(*key)),
            },
    {
        let ghost es = entries_seq(self.entries@);
        let mut i: usize = 0;
        while i < self.entries.len()
            invariant
                0 <= i <= self.entries@.len(),
                es == entries_seq(self.entries@),
                forall|k: int| 0 <= k < i ==> es[k].0 != key_view(*key),
            decreases self.entries@.len() - i,
        {
            if same_key(&self.entries[i].0, key) {
                return Some(i);
            }
            i = i + 1;
        }
        proof {
            lemma_assoc_dom(es, key_view(*key));
        }
        None
    }

    /// The image kept for `key`, if any.
    pub fn get(&self, key: &ImageCacheKey) -> (r: Option<&ResolvedImage>)
        requires
            self.wf(),
        ensures
            match r {
                Some(img) => self.images().contains_key(key_view(*key)) && self.images()[key_view(
                    *key,
                )] == *img,
                None => !self.images().contains_key(key_view(*key)),
            },
    {
        match self.find_entry(key) {
            Some(i) => {
                proof {
                    lemma_assoc_index(entries_seq(self.entries@), i as int);
                }
                Some(&self.entries[i].1)
            },
            None => None,
        }
    }

    /// Whether an image is kept for `key`.
    pub fn contains(&self, key: &ImageCacheKey) -> (r: bool)
        requires
            self.wf(),
        ensures
            r == self.images().contains_key(key_view(*key)),
    {
        match self.find_entry(key) {
            Some(i) => {
                proof {
                    lemma_assoc_index(entries_seq(self.entries@), i as int);
                }
                true
            },
            None => false,
        }
    }

    /// Keeps `image` for `key`, in place of any image kept for it.
    pub fn insert(&mut self, key: ImageCacheKey, image: ResolvedImage)
        requires
            old(self).wf(),
        ensures
            final(self).wf(),
            final(self).images() == old(self).images().insert(key_view(key), image),
            final(self).sources() == old(self).sources(),
    {
        let ghost es = entries_seq(self.entries@);
        match self.find_entry(&key) {
            Some(i) => {
                proof {
                    lemma_assoc_update(es, i as int, image);
                }
                self.entries.set(i, (key, image));
                assert(entries_seq(self.entries@) =~= es.update(i as int, (es[i as int].0, image)));
            },
            None => {
                proof {
                    lemma_assoc_push(es, key_view(key), image);
                }
                self.entries.push((key, image));
                assert(entries_seq(self.entries@) =~= es.push((key_view(key), image)));
            },
        }
    }

    /// Drops the image kept for `key`, if any.
    pub fn remove(&mut self, key: &ImageCacheKey)
        requires
            old(self).wf(),
        ensures
            final(self).wf(),
            final(self).images() == old(self).images().remove(key_view(*key)),
            final(self).sources() == old(self).sources(),
    {
        let ghost es = entries_seq(self.entries@);
        match self.find_entry(key) {
            Some(i) => {
                proof {
                    lemma_assoc_remove(es, i as int);
                }
                self.entries.remove(i);
                assert(entries_seq(self.entries@) =~= es.remove(i as int));
            },
            None => {
                assert(old(self).images().remove(key_view(*key)) =~= old(self).images());
            },
        }
    }

    fn find_source(&self, ingress: u128, index: usize) -> (r: Option<usize>)
        requires
            self.wf(),
        ensures
            match r {
                Some(i) => i < self.attachment_sources@.len() && sources_seq(self.attachment_sources@)[i as int].0
                    == (ingress, index),
                None => !self.sources().contains_key((ingress, index)),
            },
    {
        let ghost ss = sources_seq(self.attachment_sources@);
        let mut i: usize = 0;
        while i < self.attachment_sources.len()
            invariant
                0 <= i <= self.attachment_sources@.len(),
                ss == sources_seq(self.attachment_sources@),
                forall|k: int| 0 <= k < i ==> ss[k].0 != (ingress, index),
            decreases self.attachment_sources@.len() - i,
        {
            let (a, b) = self.attachment_sources[i].0;
            if a == ingress && b == index {
                return Some(i);
            }
            i = i + 1;
        }
        proof {
            lemma_assoc_dom(ss, (ingress, index));
        }
        None
    }

    /// Notes that attachment `index` of message `ingress` was read as `key`.
    pub fn remember_source(&mut self, ingress: u128, index: usize, key: ImageCacheKey)
        requires
            old(self).wf(),
        ensures
            final(self).wf(),
            final(self).sources() == old(self).sources().insert((ingress, index), key_view(key)),
            final(self).images() == old(self).images(),
    {
        let ghost ss = sources_seq(self.attachment_sources@);
        match self.find_source(ingress, index) {
            Some(i) => {
                proof {
                    lemma_assoc_update(ss, i as int, key_view(key));
                }
                self.attachment_sources.set(i, ((ingress, index), key));
                assert(sources_seq(self.attachment_sources@) =~= ss.update(
                    i as int,
                    (ss[i as int].0, key_view(key)),
                ));
            },
            None => {
                proof {
                    lemma_assoc_push(ss, (ingress, index), key_view(key));
                }
                self.attachment_sources.push(((ingress, index), key));
                assert(sources_seq(self.attachment_sources@) =~= ss.push(
                    ((ingress, index), key_view(key)),
                ));
            },
        }
    }

    /// Forgets the key of attachment `index` of message `ingress`, giving it.
    pub fn take_source(&mut self, ingress: u128, index: usize) -> (r: Option<ImageCacheKey>)
        requires
            old(self).wf(),
        ensures
            final(self).wf(),
            final(self).sources() == old(self).sources().remove((ingress, index)),
            final(self).images() == old(self).images(),
            match r {
                Some(k) => old(self).sources().contains_key((ingress, index)) && old(self).sources()[(
                    ingress,
                    index,
                )] == key_view(k),
                None => !old(self).sources().contains_key((ingress, index)),
            },
    {
        let ghost ss = sources_seq(self.attachment_sources@);
        match self.find_source(ingress, index) {
            Some(i) => {
                proof {
                    lemma_assoc_index(ss, i as int);
                    lemma_assoc_remove(ss, i as int);
                }
                let (_, key) = self.attachment_sources.remove(i);
                assert(sources_seq(self.attachment_sources@) =~= ss.remove(i as int));
                Some(key)
            },
            None => {
                assert(old(self).sources().remove((ingress, index)) =~= old(self).sources());
                None
            },
        }
    }
}

/// Whether some attachment of message `ingress` was read as `k`.
pub open spec fn read_for(sources: Map<(u128, usize), KeyView>, ingress: u128, k: KeyView) -> bool {
    exists|a: (u128, usize)| #[trigger] sources.contains_key(a) && a.0 == ingress && sources[a] == k
}

/// Keeps the attachments of messages other than `ingress`.
pub open spec fn keep_other(ingress: u128) -> spec_fn((u128, usize), KeyView) -> bool {
    |a: (u128, usize), v: KeyView| a.0 != ingress
}

/// Keeps the attachments read as none of `keys`.
pub open spec fn keep_unused(keys: Seq<ImageCacheKey>) -> spec_fn((u128, usize), KeyView) -> bool {
    |a: (u128, usize), v: KeyView| !listed_key(keys, v)
}

pub open spec fn listed_key(keys: Seq<ImageCacheKey>, k: KeyView) -> bool {
    exists|j: int| 0 <= j < keys.len() && key_view(#[trigger] keys[j]) == k
}

impl ImageMemoryCache {
    /// Drops each image kept for one of `keys`.
    fn remove_all(&mut self, keys: &Vec<ImageCacheKey>)
        requires
            old(self).wf(),
        ensures
            final(self).wf(),
            final(self).sources() == old(self).sources(),
            forall|k: KeyView|
                #[trigger] final(self).images().contains_key(k) <==> (old(self).images().contains_key(k)
                    && !listed_key(keys@, k)),
            forall|k: KeyView|
                #[trigger] final(self).images().contains_key(k) ==> final(self).images()[k] == old(
                    self,
                ).images()[k],
    {
        let mut j: usize = 0;
        while j < keys.len()
            invariant
                0 <= j <= keys@.len(),
                self.wf(),
                self.sources() == old(self).sources(),
                forall|k: KeyView|
                    #[trigger] self.images().contains_key(k) <==> (old(self).images().contains_key(k)
                        && !listed_key(keys@.take(j as int), k)),
                forall|k: KeyView|
                    #[trigger] self.images().contains_key(k) ==> self.images()[k] == old(self).images()[k],
            decreases keys@.len() - j,
        {
            self.remove(&keys[j]);
            assert forall|k: KeyView| listed_key(keys@.take(j + 1), k) <==> (listed_key(
                keys@.take(j as int),
                k,
            ) || key_view(keys@[j as int]) == k) by {
                if listed_key(keys@.take(j + 1), k) {
                    let m = choose|m: int| 0 <= m < keys@.take(j + 1).len() && key_view(
                        #[trigger] keys@.take(j + 1)[m],
                    ) == k;
                    if m < j {
                        assert(keys@.take(j as int)[m] == keys@.take(j + 1)[m]);
                    }
                }
                if listed_key(keys@.take(j as int), k) {
                    let m = choose|m: int| 0 <= m < keys@.take(j as int).len() && key_view(
                        #[trigger] keys@.take(j as int)[m],
                    ) == k;
                    assert(keys@.take(j + 1)[m] == keys@.take(j as int)[m]);
                }
                if key_view(keys@[j as int]) == k {
                    assert(keys@.take(j + 1)[j as int] == keys@[j as int]);
                }
            }
            j = j + 1;
        }
        assert(keys@.take(j as int) =~= keys@);
    }

    /// Forgets message `ingress`: the images read for its attachments, and
    /// which attachments were read as what.
    pub fn clear_for_ingress(&mut self, ingress: u128)
        requires
            old(self).wf(),
        ensures
            final(self).wf(),
            forall|a: (u128, usize)|
                #[trigger] final(self).sources().contains_key(a) <==> (old(self).sources().contains_key(a)
                    && a.0 != ingress),
            forall|a: (u128, usize)|
                #[trigger] final(self).sources().contains_key(a) ==> final(self).sources()[a] == old(
                    self,
                ).sources()[a],
            forall|k: KeyView|
                #[trigger] final(self).images().contains_key(k) <==> (old(self).images().contains_key(k)
                    && !read_for(old(self).sources(), ingress, k)),
            forall|k: KeyView|
                #[trigger] final(self).images().contains_key(k) ==> final(self).images()[k] == old(
                    self,
                ).images()[k],
    {
        let ghost ss = sources_seq(self.attachment_sources@);
        let ghost smap = self.sources();
        let ghost imgs = self.images();
        let ghost keep = keep_other(ingress);
        let mut kept: Vec<((u128, usize), ImageCacheKey)> = Vec::new();
        let mut i: usize = 0;
        assert(ss.take(0) =~= Seq::<((u128, usize), KeyView)>::empty());
        assert(sources_seq(kept@) =~= Seq::<((u128, usize), KeyView)>::empty());
        while i < self.attachment_sources.len()
            invariant
                0 <= i <= self.attachment_sources@.len(),
                ss == sources_seq(self.attachment_sources@),
                smap == self.sources(),
                self.wf(),
                forall|k: KeyView|
                    #[trigger] self.images().contains_key(k) <==> (imgs.contains_key(k) && !exists|m: int|
                        0 <= m < i && (#[trigger] ss[m]).0.0 == ingress && ss[m].1 == k),
                forall|k: KeyView|
                    #[trigger] self.images().contains_key(k) ==> self.images()[k] == imgs[k],
                keep == keep_other(ingress),
                sources_seq(kept@) == assoc_filter(ss.take(i as int), keep),
            decreases self.attachment_sources@.len() - i,
        {
            assert(ss[i as int] == (self.attachment_sources@[i as int].0, key_view(
                self.attachment_sources@[i as int].1,
            )));
            assert(ss.take(i + 1).drop_last() =~= ss.take(i as int));
            assert(ss.take(i + 1).last() == ss[i as int]);
            let id = self.attachment_sources[i].0;
            let key = copy_key(&self.attachment_sources[i].1);
            assert(keep(ss[i as int].0, ss[i as int].1) == (id.0 != ingress));
            if id.0 == ingress {
                let ghost before = self.images();
                let ghost es = entries_seq(self.entries@);
                match self.find_entry(&key) {
                    Some(j) => {
                        proof {
                            lemma_assoc_remove(es, j as int);
                        }
                        self.entries.remove(j);
                        assert(entries_seq(self.entries@) =~= es.remove(j as int));
                    },
                    None => {
                        assert(before.remove(key_view(key)) =~= before);
                    },
                }
                assert(self.images() == before.remove(key_view(key)));
                assert forall|k: KeyView| #[trigger] self.images().contains_key(k) <==> (imgs.contains_key(k)
                    && !exists|m: int| 0 <= m < i + 1 && (#[trigger] ss[m]).0.0 == ingress && ss[m].1 == k) by {
                    if exists|m: int| 0 <= m < i + 1 && (#[trigger] ss[m]).0.0 == ingress && ss[m].1 == k {
                        let m = choose|m: int| 0 <= m < i + 1 && (#[trigger] ss[m]).0.0 == ingress && ss[m].1 == k;
                        if m < i {
                            assert(!before.contains_key(k));
                        }
                    }
                }
            } else {
                let ghost before = sources_seq(kept@);
                kept.push((id, key));
                assert(sources_seq(kept@) =~= before.push(ss[i as int]));
            }
            i = i + 1;
        }
        assert(ss.take(i as int) =~= ss);
        proof {
            lemma_assoc_filter(ss, keep);
            assert forall|k: KeyView| (exists|m: int| 0 <= m < ss.len() && (#[trigger] ss[m]).0.0 == ingress
                && ss[m].1 == k) <==> read_for(smap, ingress, k) by {
                if exists|m: int| 0 <= m < ss.len() && (#[trigger] ss[m]).0.0 == ingress && ss[m].1 == k {
                    let m = choose|m: int| 0 <= m < ss.len() && (#[trigger] ss[m]).0.0 == ingress && ss[m].1 == k;
                    lemma_assoc_index(ss, m);
                    assert(smap.contains_key(ss[m].0));
                }
                if read_for(smap, ingress, k) {
                    let a = choose|a: (u128, usize)| #[trigger] smap.contains_key(a) && a.0 == ingress && smap[a] == k;
                    lemma_assoc_dom(ss, a);
                    let m = choose|m: int| 0 <= m < ss.len() && #[trigger] ss[m].0 == a;
                    lemma_assoc_index(ss, m);
                }
            }
        }
        let ghost after = self.images();
        self.attachment_sources = kept;
        assert(self.images() == after);
        assert forall|k: KeyView| #[trigger] self.images().contains_key(k) <==> (imgs.contains_key(k)
            && !read_for(smap, ingress, k)) by {
            assert(after.contains_key(k) <==> (imgs.contains_key(k) && !exists|m: int|
                0 <= m < ss.len() && (#[trigger] ss[m]).0.0 == ingress && ss[m].1 == k));
        }
        assert forall|k: KeyView| #[trigger] self.images().contains_key(k) implies self.images()[k]
            == imgs[k] by {
            assert(after.contains_key(k));
        }
    }

    /// Drops the images of `used_keys`, and forgets the attachments read as
    /// one of them.
    pub fn release_keys(&mut self, used_keys: &Vec<ImageCacheKey>)
        requires
            old(self).wf(),
        ensures
            final(self).wf(),
            forall|k: KeyView|
                #[trigger] final(self).images().contains_key(k) <==> (old(self).images().contains_key(k)
                    && !listed_key(used_keys@, k)),
            forall|k: KeyView|
                #[trigger] final(self).images().contains_key(k) ==> final(self).images()[k] == old(
                    self,
                ).images()[k],
            forall|a: (u128, usize)|
                #[trigger] final(self).sources().contains_key(a) <==> (old(self).sources().contains_key(a)
                    && !listed_key(used_keys@, old(self).sources()[a])),
            forall|a: (u128, usize)|
                #[trigger] final(self).sources().contains_key(a) ==> final(self).sources()[a] == old(
                    self,
                ).sources()[a],
    {
        self.remove_all(used_keys);
        let ghost imgs = self.images();
        let ghost ss = sources_seq(self.attachment_sources@);
        let ghost keep = keep_unused(used_keys@);
        let mut kept: Vec<((u128, usize), ImageCacheKey)> = Vec::new();
        let mut i: usize = 0;
        assert(ss.take(0) =~= Seq::<((u128, usize), KeyView)>::empty());
        assert(sources_seq(kept@) =~= Seq::<((u128, usize), KeyView)>::empty());
        while i < self.attachment_sources.len()
            invariant
                0 <= i <= self.attachment_sources@.len(),
                ss == sources_seq(self.attachment_sources@),
                self.wf(),
                self.images() == imgs,
                keep == keep_unused(used_keys@),
                sources_seq(kept@) == assoc_filter(ss.take(i as int), keep),
            decreases self.attachment_sources@.len() - i,
        {
            assert(ss[i as int] == (self.attachment_sources@[i as int].0, key_view(
                self.attachment_sources@[i as int].1,
            )));
            assert(ss.take(i + 1).drop_last() =~= ss.take(i as int));
            assert(ss.take(i + 1).last() == ss[i as int]);
            let used = is_listed(used_keys, &self.attachment_sources[i].1);
            assert(keep(ss[i as int].0, ss[i as int].1) == !used);
            if !used {
                let ghost before = sources_seq(kept@);
                let id = self.attachment_sources[i].0;
                let key = copy_key(&self.attachment_sources[i].1);
                kept.push((id, key));
                assert(sources_seq(kept@) =~= before.push(ss[i as int]));
            }
            i = i + 1;
        }
        assert(ss.take(i as int) =~= ss);
        proof {
            lemma_assoc_filter(ss, keep);
        }
        self.attachment_sources = kept;
    }
}

fn is_listed(keys: &Vec<ImageCacheKey>, k: &ImageCacheKey) -> (r: bool)
    ensures
        r == listed_key(keys@, key_view(*k)),
{
    let mut j: usize = 0;
    while j < keys.len()
        invariant
            0 <= j <= keys@.len(),
            forall|m: int| 0 <= m < j ==> key_view(#[trigger] keys@[m]) != key_view(*k),
        decreases keys@.len() - j,
    {
        if same_key(&keys[j], k) {
            return true;
        }
        j = j + 1;
    }
    false
}

} // verus!
