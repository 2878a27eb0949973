//! What the QQ Zone sender keeps of the events on the bus: the authors of
//! messages, the messages of each post, review and external codes, whether
//! a post is anonymous, the send plans, the rendered images and the paths of
//! stored blobs; and what it reads of them to send a batch.
use vstd::prelude::*;

use std::collections::HashMap;

use crate::image_cache::{
    assoc_map, distinct_keys, lemma_assoc_dom, lemma_assoc_index, lemma_assoc_push, lemma_assoc_update,
};
use crate::qzone::{BatchPostInfo, IngressAuthor, SendPriority};

verus! {

broadcast use vstd::std_specs::hash::group_hash_axioms;

/// When and in what order a post is to be sent.
#[derive(Debug, Clone)]
pub struct SendPlanMeta {
    pub group_id: String,
    pub not_before_ms: i64,
    pub priority: SendPriority,
    pub seq: u64,
}

/// The events of the bus that change what the sender keeps.
#[derive(Debug)]
pub enum SenderEvent {
    /// A message was accepted or synced, from `author`.
    IngressKept { ingress_id: u128, author: IngressAuthor },
    /// A message was ignored.
    IngressIgnored { ingress_id: u128 },
    /// A message was recalled: it leaves every post too.
    IngressRecalled { ingress_id: u128 },
    /// A post's draft was made from `ingress_ids`.
    DraftCreated { post_id: u128, ingress_ids: Vec<u128>, is_anonymous: bool },
    /// A review item for a post was created or synced.
    ReviewLinked { review_id: u128, post_id: u128, review_code: u64 },
    /// Whether the post of a review item is anonymous was switched.
    AnonToggled { review_id: u128 },
    ExternalCodeAssigned { post_id: u128, external_code: u64 },
    ExternalCodeCleared { post_id: u128 },
    /// A send plan was created or rescheduled.
    PlanSet { post_id: u128, plan: SendPlanMeta },
    PlanCanceled { post_id: u128 },
    BlobPersisted { blob_id: u128, path: String },
    /// A blob was released or collected.
    BlobGone { blob_id: u128 },
    /// A render was requested or failed: the post has no image for now.
    RenderReset { post_id: u128 },
    PngReady { post_id: u128, blob_id: u128 },
}

/// What the sender keeps.
pub struct QzoneSenderBook {
    pub attempts: HashMap<u128, u32>,
    pub ingress_authors: HashMap<u128, IngressAuthor>,
    post_ingress: Vec<(u128, Vec<u128>)>,
    pub post_anonymous: HashMap<u128, bool>,
    pub send_plans: HashMap<u128, SendPlanMeta>,
    pub review_posts: HashMap<u128, u128>,
    pub review_codes: HashMap<u128, u64>,
    pub external_codes: HashMap<u128, u64>,
    pub render_png: HashMap<u128, Option<u128>>,
    pub blob_paths: HashMap<u128, String>,
}

/// The book as maps.
pub struct BookView {
    pub attempts: Map<u128, u32>,
    pub authors: Map<u128, IngressAuthor>,
    pub post_ingress: Map<u128, Seq<u128>>,
    pub anonymous: Map<u128, bool>,
    pub plans: Map<u128, SendPlanMeta>,
    pub review_posts: Map<u128, u128>,
    pub review_codes: Map<u128, u64>,
    pub external_codes: Map<u128, u64>,
    pub render_png: Map<u128, Option<u128>>,
    pub blob_paths: Map<u128, String>,
}

pub open spec fn ingress_view(v: Seq<(u128, Vec<u128>)>) -> Seq<(u128, Seq<u128>)> {
    v.map_values(|e: (u128, Vec<u128>)| (e.0, e.1@))
}

/// Whether a message is another than `id`.
pub open spec fn other_than(id: u128) -> spec_fn(u128) -> bool {
    |x: u128| x != id
}

/// A post's entry with the message `id` left out.
pub open spec fn entry_without(id: u128) -> spec_fn((u128, Seq<u128>)) -> (u128, Seq<u128>) {
    |e: (u128, Seq<u128>)| (e.0, e.1.filter(other_than(id)))
}

/// Each post's messages without `id`.
pub open spec fn without_ingress(m: Map<u128, Seq<u128>>, id: u128) -> Map<u128, Seq<u128>> {
    Map::new(|k: u128| m.contains_key(k), |k: u128| m[k].filter(other_than(id)))
}

/// What an event does to the book.
pub open spec fn apply_spec(b: BookView, e: SenderEvent) -> BookView {
    match e {
        SenderEvent::IngressKept { ingress_id, author } => BookView {
            authors: b.authors.insert(ingress_id, author),
            ..b
        },
        SenderEvent::IngressIgnored { ingress_id } => BookView {
            authors: b.authors.remove(ingress_id),
            ..b
        },
        SenderEvent::IngressRecalled { ingress_id } => BookView {
            authors: b.authors.remove(ingress_id),
            post_ingress: without_ingress(b.post_ingress, ingress_id),
            ..b
        },
        SenderEvent::DraftCreated { post_id, ingress_ids, is_anonymous } => BookView {
            post_ingress: b.post_ingress.insert(post_id, ingress_ids@),
            anonymous: b.anonymous.insert(post_id, is_anonymous),
            ..b
        },
        SenderEvent::ReviewLinked { review_id, post_id, review_code } => BookView {
            review_codes: b.review_codes.insert(post_id, review_code),
            review_posts: b.review_posts.insert(review_id, post_id),
            ..b
        },
        SenderEvent::AnonToggled { review_id } => if b.review_posts.contains_key(review_id) {
            let p = b.review_posts[review_id];
            let was = b.anonymous.contains_key(p) && b.anonymous[p];
            BookView { anonymous: b.anonymous.insert(p, !was), ..b }
        } else {
            b
        },
        SenderEvent::ExternalCodeAssigned { post_id, external_code } => BookView {
            external_codes: b.external_codes.insert(post_id, external_code),
            ..b
        },
        SenderEvent::ExternalCodeCleared { post_id } => BookView {
            external_codes: b.external_codes.remove(post_id),
            ..b
        },
        SenderEvent::PlanSet { post_id, plan } => BookView { plans: b.plans.insert(post_id, plan), ..b },
        SenderEvent::PlanCanceled { post_id } => BookView { plans: b.plans.remove(post_id), ..b },
        SenderEvent::BlobPersisted { blob_id, path } => BookView {
            blob_paths: b.blob_paths.insert(blob_id, path),
            ..b
        },
        SenderEvent::BlobGone { blob_id } => BookView { blob_paths: b.blob_paths.remove(blob_id), ..b },
        SenderEvent::RenderReset { post_id } => BookView {
            render_png: b.render_png.insert(post_id, None),
            ..b
        },
        SenderEvent::PngReady { post_id, blob_id } => BookView {
            render_png: b.render_png.insert(post_id, Some(blob_id)),
            ..b
        },
    }
}

impl QzoneSenderBook {
    pub closed spec fn wf(&self) -> bool {
        distinct_keys(ingress_view(self.post_ingress@))
    }

    pub closed spec fn view(&self) -> BookView {
        BookView {
            attempts: self.attempts@,
            authors: self.ingress_authors@,
            post_ingress: assoc_map(ingress_view(self.post_ingress@)),
            anonymous: self.post_anonymous@,
            plans: self.send_plans@,
            review_posts: self.review_posts@,
            review_codes: self.review_codes@,
            external_codes: self.external_codes@,
            render_png: self.render_png@,
            blob_paths: self.blob_paths@,
        }
    }
}


fn ids_without(ids: &Vec<u128>, id: u128) -> (r: Vec<u128>)
    ensures
        r@ == ids@.filter(other_than(id)),
{
    let mut r: Vec<u128> = Vec::new();
    let mut k: usize = 0;
    while k < ids.len()
        invariant
            0 <= k <= ids@.len(),
            r@ == ids@.take(k as int).filter(other_than(id)),
        decreases ids@.len() - k,
    {
        proof {
            reveal_with_fuel(Seq::<u128>::filter, 1);
            assert(ids@.take(k + 1).drop_last() =~= ids@.take(k as int));
        }
        if ids[k] != id {
            r.push(ids[k]);
        }
        k = k + 1;
    }
    assert(ids@.take(ids@.len() as int) =~= ids@);
    r
}

proof fn lemma_assoc_map_filtered(s: Seq<(u128, Seq<u128>)>, id: u128)
    ensures
        assoc_map(s.map_values(entry_without(id))) == without_ingress(assoc_map(s), id),
    decreases s.len(),
{
    let f = entry_without(id);
    let t = s.map_values(f);
    assert(t.len() == s.len());
    if s.len() == 0 {
        assert(assoc_map(t) =~= without_ingress(assoc_map(s), id));
    } else {
        lemma_assoc_map_filtered(s.drop_last(), id);
        assert(t.drop_last() =~= s.drop_last().map_values(f));
        assert(t.last() == f(s.last()));
        let m0 = assoc_map(s.drop_last());
        assert(assoc_map(s) == m0.insert(s.last().0, s.last().1));
        assert(assoc_map(t) == assoc_map(t.drop_last()).insert(t.last().0, t.last().1));
        assert(assoc_map(t) =~= without_ingress(assoc_map(s), id));
    }
}

impl QzoneSenderBook {
    /// A book that keeps nothing.
    pub fn new() -> (r: Self)
        ensures
            r.wf(),
            r.view().attempts == Map::<u128, u32>::empty(),
            r.view().authors == Map::<u128, IngressAuthor>::empty(),
            r.view().post_ingress == Map::<u128, Seq<u128>>::empty(),
            r.view().anonymous == Map::<u128, bool>::empty(),
            r.view().plans == Map::<u128, SendPlanMeta>::empty(),
            r.view().review_posts == Map::<u128, u128>::empty(),
            r.view().review_codes == Map::<u128, u64>::empty(),
            r.view().external_codes == Map::<u128, u64>::empty(),
            r.view().render_png == Map::<u128, Option<u128>>::empty(),
            r.view().blob_paths == Map::<u128, String>::empty(),
    {
        let r = QzoneSenderBook {
            attempts: HashMap::new(),
            ingress_authors: HashMap::new(),
            post_ingress: Vec::new(),
            post_anonymous: HashMap::new(),
            send_plans: HashMap::new(),
            review_posts: HashMap::new(),
            review_codes: HashMap::new(),
            external_codes: HashMap::new(),
            render_png: HashMap::new(),
            blob_paths: HashMap::new(),
        };
        assert(ingress_view(r.post_ingress@) =~= Seq::<(u128, Seq<u128>)>::empty());
        r
    }

    fn find_post(&self, post_id: u128) -> (r: Option<usize>)
        requires
            self.wf(),
        ensures
            match r {
                Some(i) => i < self.post_ingress@.len() && self.post_ingress@[i as int].0 == post_id,
                None => !self.view().post_ingress.contains_key(post_id),
            },
    {
        let mut i: usize = 0;
        while i < self.post_ingress.len()
            invariant
                0 <= i <= self.post_ingress@.len(),
                forall|k: int| 0 <= k < i ==> (#[trigger] self.post_ingress@[k]).0 != post_id,
            decreases self.post_ingress@.len() - i,
        {
            if self.post_ingress[i].0 == post_id {
                return Some(i);
            }
            i = i + 1;
        }
        proof {
            let v = ingress_view(self.post_ingress@);
            lemma_assoc_dom(v, post_id);
            if exists|k: int| 0 <= k < v.len() && #[trigger] v[k].0 == post_id {
                let k = choose|k: int| 0 <= k < v.len() && #[trigger] v[k].0 == post_id;
                assert(self.post_ingress@[k].0 == post_id);
            }
        }
        None
    }

    /// The messages of a post, if it has a draft.
    pub fn ingress_of(&self, post_id: u128) -> (r: Option<&Vec<u128>>)
        requires
            self.wf(),
        ensures
            match r {
                Some(ids) => self.view().post_ingress.contains_key(post_id) && self.view().post_ingress[post_id] == ids@,
                None => !self.view().post_ingress.contains_key(post_id),
            },
    {
        match self.find_post(post_id) {
            Some(i) => {
                proof {
                    lemma_assoc_index(ingress_view(self.post_ingress@), i as int);
                }
                Some(&self.post_ingress[i].1)
            },
            None => None,
        }
    }

    fn set_post_ingress(&mut self, post_id: u128, ids: Vec<u128>)
        requires
            old(self).wf(),
        ensures
            final(self).wf(),
            final(self).view() == (BookView {
                post_ingress: old(self).view().post_ingress.insert(post_id, ids@),
                ..old(self).view()
            }),
    {
        let ghost v0 = ingress_view(self.post_ingress@);
        match self.find_post(post_id) {
            Some(i) => {
                self.post_ingress.set(i, (post_id, ids));
                proof {
                    assert(ingress_view(self.post_ingress@) =~= v0.update(i as int, (v0[i as int].0, ids@)));
                    lemma_assoc_update(v0, i as int, ids@);
                }
            },
            None => {
                self.post_ingress.push((post_id, ids));
                proof {
                    assert(ingress_view(self.post_ingress@) =~= v0.push((post_id, ids@)));
                    lemma_assoc_push(v0, post_id, ids@);
                }
            },
        }
    }

    fn drop_ingress_everywhere(&mut self, id: u128)
        requires
            old(self).wf(),
        ensures
            final(self).wf(),
            final(self).view() == (BookView {
                post_ingress: without_ingress(old(self).view().post_ingress, id),
                ..old(self).view()
            }),
    {
        let ghost v0 = ingress_view(self.post_ingress@);
        let mut out: Vec<(u128, Vec<u128>)> = Vec::new();
        let mut i: usize = 0;
        while i < self.post_ingress.len()
            invariant
                0 <= i <= self.post_ingress@.len(),
                v0 == ingress_view(self.post_ingress@),
                ingress_view(out@) == v0.take(i as int).map_values(entry_without(id)),
            decreases self.post_ingress@.len() - i,
        {
            let k = self.post_ingress[i].0;
            let kept = ids_without(&self.post_ingress[i].1, id);
            let ghost prev = out@;
            out.push((k, kept));
            proof {
                assert(v0[i as int] == (k, self.post_ingress@[i as int].1@));
                assert(entry_without(id)(v0[i as int]) == (v0[i as int].0, v0[i as int].1.filter(other_than(id))));
                assert(entry_without(id)(v0[i as int]) == (k, kept@));
                assert(out@ =~= prev.push((k, kept)));
                assert(ingress_view(out@) =~= ingress_view(prev).push((k, kept@)));
                assert(v0.take(i + 1).map_values(entry_without(id)) =~= v0.take(i as int).map_values(entry_without(id)).push(entry_without(id)(v0[i as int])));
                assert(ingress_view(out@) =~= v0.take(i + 1).map_values(entry_without(id)));
            }
            i = i + 1;
        }
        proof {
            assert(v0.take(v0.len() as int) =~= v0);
            lemma_assoc_map_filtered(v0, id);
            assert forall|a: int, b: int| 0 <= a < b < ingress_view(out@).len() implies #[trigger] ingress_view(out@)[a].0 != #[trigger] ingress_view(out@)[b].0 by {
                assert(ingress_view(out@)[a].0 == v0[a].0);
                assert(ingress_view(out@)[b].0 == v0[b].0);
            }
        }
        self.post_ingress = out;
    }

    /// Keeps what `event` says.
    pub fn apply(&mut self, event: SenderEvent)
        requires
            old(self).wf(),
        ensures
            final(self).wf(),
            final(self).view() == apply_spec(old(self).view(), event),
    {
        let ghost e = event;
        match event {
            SenderEvent::IngressKept { ingress_id, author } => {
                self.ingress_authors.insert(ingress_id, author);
            },
            SenderEvent::IngressIgnored { ingress_id } => {
                self.ingress_authors.remove(&ingress_id);
            },
            SenderEvent::IngressRecalled { ingress_id } => {
                self.ingress_authors.remove(&ingress_id);
                self.drop_ingress_everywhere(ingress_id);
            },
            SenderEvent::DraftCreated { post_id, ingress_ids, is_anonymous } => {
                self.set_post_ingress(post_id, ingress_ids);
                self.post_anonymous.insert(post_id, is_anonymous);
            },
            SenderEvent::ReviewLinked { review_id, post_id, review_code } => {
                self.review_codes.insert(post_id, review_code);
                self.review_posts.insert(review_id, post_id);
            },
            SenderEvent::AnonToggled { review_id } => {
                match self.review_posts.get(&review_id) {
                    Some(p) => {
                        let post = *p;
                        let was = match self.post_anonymous.get(&post) {
                            Some(a) => *a,
                            None => false,
                        };
                        self.post_anonymous.insert(post, !was);
                    },
                    None => {},
                }
            },
            SenderEvent::ExternalCodeAssigned { post_id, external_code } => {
                self.external_codes.insert(post_id, external_code);
            },
            SenderEvent::ExternalCodeCleared { post_id } => {
                self.external_codes.remove(&post_id);
            },
            SenderEvent::PlanSet { post_id, plan } => {
                self.send_plans.insert(post_id, plan);
            },
            SenderEvent::PlanCanceled { post_id } => {
                self.send_plans.remove(&post_id);
            },
            SenderEvent::BlobPersisted { blob_id, path } => {
                self.blob_paths.insert(blob_id, path);
            },
            SenderEvent::BlobGone { blob_id } => {
                self.blob_paths.remove(&blob_id);
            },
            SenderEvent::RenderReset { post_id } => {
                self.render_png.insert(post_id, None);
            },
            SenderEvent::PngReady { post_id, blob_id } => {
                self.render_png.insert(post_id, Some(blob_id));
            },
        }
        proof {
            assert(self.view() =~~= apply_spec(old(self).view(), e));
        }
    }
}


/// What the text of a batch reads of an author.
pub open spec fn author_view(a: IngressAuthor) -> (Seq<char>, Option<Seq<char>>) {
    (a.user_id@, crate::json::opt_text(a.sender_name))
}

pub open spec fn authors_view(v: Seq<IngressAuthor>) -> Seq<(Seq<char>, Option<Seq<char>>)>
    decreases v.len(),
{
    if v.len() == 0 {
        Seq::empty()
    } else {
        authors_view(v.drop_last()).push(author_view(v.last()))
    }
}

/// The authors of the messages `ids` that the book knows, in order.
pub open spec fn authors_of(ids: Seq<u128>, m: Map<u128, IngressAuthor>) -> Seq<(Seq<char>, Option<Seq<char>>)>
    decreases ids.len(),
{
    if ids.len() == 0 {
        Seq::empty()
    } else {
        let r = authors_of(ids.drop_last(), m);
        if m.contains_key(ids.last()) {
            r.push(author_view(m[ids.last()]))
        } else {
            r
        }
    }
}

pub open spec fn code_of(m: Map<u128, u64>, post_id: u128) -> Option<u64> {
    if m.contains_key(post_id) {
        Some(m[post_id])
    } else {
        None
    }
}

/// What the text of a batch is told of a post: its codes, whether it is
/// anonymous (not when the book does not say), and the known authors of its
/// messages.
pub open spec fn batch_info_ok(b: BookView, post_id: u128, info: BatchPostInfo) -> bool {
    &&& info.post_id == post_id
    &&& info.external_code == code_of(b.external_codes, post_id)
    &&& info.review_code == code_of(b.review_codes, post_id)
    &&& info.anonymous == (b.anonymous.contains_key(post_id) && b.anonymous[post_id])
    &&& authors_view(info.authors@) == if b.post_ingress.contains_key(post_id) {
        authors_of(b.post_ingress[post_id], b.authors)
    } else {
        Seq::empty()
    }
}

fn copy_author(a: &IngressAuthor) -> (r: IngressAuthor)
    ensures
        author_view(r) == author_view(*a),
{
    IngressAuthor {
        user_id: crate::text::owned(a.user_id.as_str()),
        sender_name: match &a.sender_name {
            Some(n) => Some(crate::text::owned(n.as_str())),
            None => None,
        },
    }
}

impl QzoneSenderBook {
    /// Takes the send plan of the post that starts a send.
    pub fn take_plan(&mut self, post_id: u128) -> (r: Option<SendPlanMeta>)
        requires
            old(self).wf(),
        ensures
            final(self).wf(),
            final(self).view() == (BookView { plans: old(self).view().plans.remove(post_id), ..old(self).view() }),
            match r {
                Some(p) => old(self).view().plans.contains_key(post_id) && p == old(self).view().plans[post_id],
                None => !old(self).view().plans.contains_key(post_id),
            },
    {
        let r = self.send_plans.remove(&post_id);
        proof {
            assert(self.view() =~~= (BookView { plans: old(self).view().plans.remove(post_id), ..old(self).view() }));
        }
        r
    }

    /// Counts one more attempt to send a post, and gives the count.
    pub fn next_attempt(&mut self, post_id: u128) -> (r: u32)
        requires
            old(self).wf(),
            old(self).view().attempts.contains_key(post_id) ==> old(self).view().attempts[post_id] < u32::MAX,
        ensures
            final(self).wf(),
            r == if old(self).view().attempts.contains_key(post_id) {
                old(self).view().attempts[post_id] + 1
            } else {
                1
            },
            final(self).view() == (BookView { attempts: old(self).view().attempts.insert(post_id, r), ..old(self).view() }),
    {
        let n = match self.attempts.get(&post_id) {
            Some(a) => *a + 1,
            None => 1,
        };
        self.attempts.insert(post_id, n);
        proof {
            assert(self.view() =~~= (BookView { attempts: old(self).view().attempts.insert(post_id, n), ..old(self).view() }));
        }
        n
    }

    /// Forgets the attempts of a post that was sent.
    pub fn clear_attempts(&mut self, post_id: u128)
        requires
            old(self).wf(),
        ensures
            final(self).wf(),
            final(self).view() == (BookView { attempts: old(self).view().attempts.remove(post_id), ..old(self).view() }),
    {
        self.attempts.remove(&post_id);
        proof {
            assert(self.view() =~~= (BookView { attempts: old(self).view().attempts.remove(post_id), ..old(self).view() }));
        }
    }

    /// The known authors of the messages `ids`, in order.
    fn authors_for(&self, ids: &Vec<u128>) -> (r: Vec<IngressAuthor>)
        ensures
            authors_view(r@) == authors_of(ids@, self.view().authors),
    {
        let mut r: Vec<IngressAuthor> = Vec::new();
        let mut k: usize = 0;
        while k < ids.len()
            invariant
                0 <= k <= ids@.len(),
                authors_view(r@) == authors_of(ids@.take(k as int), self.view().authors),
            decreases ids@.len() - k,
        {
            proof {
                assert(ids@.take(k + 1).drop_last() =~= ids@.take(k as int));
                assert(ids@.take(k + 1).last() == ids@[k as int]);
            }
            match self.ingress_authors.get(&ids[k]) {
                Some(a) => {
                    let c = copy_author(a);
                    let ghost prev = r@;
                    r.push(c);
                    proof {
                        assert(r@.drop_last() =~= prev);
                    }
                },
                None => {},
            }
            k = k + 1;
        }
        assert(ids@.take(ids@.len() as int) =~= ids@);
        r
    }

    /// What the text of a batch of `post_ids` is told of each post.
    pub fn batch_infos(&self, post_ids: &Vec<u128>) -> (r: Vec<BatchPostInfo>)
        requires
            self.wf(),
        ensures
            r@.len() == post_ids@.len(),
            forall|i: int| 0 <= i < post_ids@.len() ==> batch_info_ok(self.view(), post_ids@[i], #[trigger] r@[i]),
    {
        let mut r: Vec<BatchPostInfo> = Vec::new();
        let mut i: usize = 0;
        while i < post_ids.len()
            invariant
                self.wf(),
                0 <= i <= post_ids@.len(),
                r@.len() == i,
                forall|j: int| 0 <= j < i ==> batch_info_ok(self.view(), post_ids@[j], #[trigger] r@[j]),
            decreases post_ids@.len() - i,
        {
            let p = post_ids[i];
            let external_code = match self.external_codes.get(&p) {
                Some(c) => Some(*c),
                None => None,
            };
            let review_code = match self.review_codes.get(&p) {
                Some(c) => Some(*c),
                None => None,
            };
            let anonymous = match self.post_anonymous.get(&p) {
                Some(a) => *a,
                None => false,
            };
            let authors = match self.ingress_of(p) {
                Some(ids) => self.authors_for(ids),
                None => {
                    let v: Vec<IngressAuthor> = Vec::new();
                    assert(authors_view(v@) =~= Seq::<(Seq<char>, Option<Seq<char>>)>::empty());
                    v
                },
            };
            r.push(BatchPostInfo { post_id: p, external_code, review_code, anonymous, authors });
            i = i + 1;
        }
        r
    }
}


/// What the sender tells the rest of the system about a send.
#[derive(Debug)]
pub enum SenderCommand {
    /// A post of the queue waits until the batch is done.
    Reschedule { post_id: u128, group_id: String, not_before_ms: i64, priority: SendPriority, seq: u64 },
    /// A post went out with a batch led by another: its own plan is dropped.
    CancelPlan { post_id: u128 },
    /// A post of the batch was sent.
    Succeeded { post_id: u128, account_id: String, finished_at_ms: i64, remote_id: Option<String> },
}

pub open spec fn is_reschedule(c: SenderCommand, q: crate::qzone::RequeuePostPlan, group_id: Seq<char>, at: i64) -> bool {
    match c {
        SenderCommand::Reschedule { post_id, group_id: g, not_before_ms, priority, seq } => post_id
            == q.post_id && g@ == group_id && not_before_ms == at && priority == q.priority && seq
            == q.seq,
        _ => false,
    }
}

pub open spec fn is_cancel(c: SenderCommand, p: u128) -> bool {
    match c {
        SenderCommand::CancelPlan { post_id } => post_id == p,
        _ => false,
    }
}

pub open spec fn is_succeeded(c: SenderCommand, p: u128, account: Seq<char>, at: i64, rid: Option<Seq<char>>) -> bool {
    match c {
        SenderCommand::Succeeded { post_id, account_id, finished_at_ms, remote_id } => post_id == p
            && account_id@ == account && finished_at_ms == at && crate::qzone::opt_view(remote_id)
            == rid,
        _ => false,
    }
}

/// The posts put back in the queue when a batch starts wait for the
/// batch: each is rescheduled, in order, in its group, to the hold time
/// after the start, keeping its priority and place.
pub fn requeue_commands(
    requeue: &Vec<crate::qzone::RequeuePostPlan>,
    group_id: &str,
    started_at_ms: i64,
) -> (r: Vec<SenderCommand>)
    ensures
        r@.len() == requeue@.len(),
        forall|i: int|
            0 <= i < requeue@.len() ==> is_reschedule(
                #[trigger] r@[i],
                requeue@[i],
                group_id@,
                crate::qzone::sat_add_i64(started_at_ms, crate::qzone::STACKING_HOLD_MS as int),
            ),
{
    let hold = crate::qzone::requeue_not_before(started_at_ms);
    let mut r: Vec<SenderCommand> = Vec::new();
    let mut i: usize = 0;
    while i < requeue.len()
        invariant
            0 <= i <= requeue@.len(),
            r@.len() == i,
            hold == crate::qzone::sat_add_i64(started_at_ms, crate::qzone::STACKING_HOLD_MS as int),
            forall|j: int| 0 <= j < i ==> is_reschedule(#[trigger] r@[j], requeue@[j], group_id@, hold),
        decreases requeue@.len() - i,
    {
        let q = requeue[i];
        r.push(
            SenderCommand::Reschedule {
                post_id: q.post_id,
                group_id: crate::text::owned(group_id),
                not_before_ms: hold,
                priority: q.priority,
                seq: q.seq,
            },
        );
        i = i + 1;
    }
    r
}

/// The remote id a post of a sent batch is reported with: the send's for
/// the leader, none for the others.
pub open spec fn remote_for(p: u128, leader: u128, remote_id: Option<String>) -> Option<Seq<char>> {
    if p == leader {
        crate::qzone::opt_view(remote_id)
    } else {
        None
    }
}

/// After every account published a batch: first the plans of the batch's
/// other posts are dropped, in batch order; then each post of the batch is
/// reported sent under `account_id` at the start time, the leader with the
/// remote post id, the others without.
pub fn success_commands(
    batch: &Vec<u128>,
    leader: u128,
    account_id: &str,
    started_at_ms: i64,
    remote_id: &Option<String>,
) -> (r: Vec<SenderCommand>)
    ensures
        r@.len() == batch@.filter(other_than(leader)).len() + batch@.len(),
        forall|i: int|
            0 <= i < batch@.filter(other_than(leader)).len() ==> is_cancel(
                #[trigger] r@[i],
                batch@.filter(other_than(leader))[i],
            ),
        forall|i: int|
            0 <= i < batch@.len() ==> is_succeeded(
                #[trigger] r@[batch@.filter(other_than(leader)).len() + i],
                batch@[i],
                account_id@,
                started_at_ms,
                remote_for(batch@[i], leader, *remote_id),
            ),
{
    let ghost others = batch@.filter(other_than(leader));
    let mut r: Vec<SenderCommand> = Vec::new();
    let mut i: usize = 0;
    while i < batch.len()
        invariant
            0 <= i <= batch@.len(),
            r@.len() == batch@.take(i as int).filter(other_than(leader)).len(),
            forall|j: int|
                0 <= j < r@.len() ==> is_cancel(#[trigger] r@[j], batch@.take(i as int).filter(other_than(leader))[j]),
        decreases batch@.len() - i,
    {
        proof {
            reveal_with_fuel(Seq::<u128>::filter, 1);
            assert(batch@.take(i + 1).drop_last() =~= batch@.take(i as int));
        }
        if batch[i] != leader {
            r.push(SenderCommand::CancelPlan { post_id: batch[i] });
        }
        i = i + 1;
    }
    assert(batch@.take(batch@.len() as int) =~= batch@);
    let n = r.len();
    let mut k: usize = 0;
    while k < batch.len()
        invariant
            0 <= k <= batch@.len(),
            n == others.len(),
            others == batch@.filter(other_than(leader)),
            r@.len() == n + k,
            forall|j: int| 0 <= j < n ==> is_cancel(#[trigger] r@[j], others[j]),
            forall|j: int|
                0 <= j < k ==> is_succeeded(
                    #[trigger] r@[n + j],
                    batch@[j],
                    account_id@,
                    started_at_ms,
                    remote_for(batch@[j], leader, *remote_id),
                ),
        decreases batch@.len() - k,
    {
        let id = batch[k];
        let rid = if id == leader {
            match remote_id {
                Some(t) => Some(crate::text::owned(t.as_str())),
                None => None,
            }
        } else {
            None
        };
        r.push(
            SenderCommand::Succeeded {
                post_id: id,
                account_id: crate::text::owned(account_id),
                finished_at_ms: started_at_ms,
                remote_id: rid,
            },
        );
        k = k + 1;
    }
    r
}


/// Canceling a post's plan removes it, whatever the book held: no plan is
/// left for the post, so taking it gives nothing; every other post keeps
/// its plan, and the rest of the book is untouched. Setting a plan and
/// canceling it leaves no plan for the post either.
pub proof fn lemma_canceled_plan_is_gone(b: BookView, post_id: u128, plan: SendPlanMeta)
    ensures
        !apply_spec(b, SenderEvent::PlanCanceled { post_id }).plans.contains_key(post_id),
        forall|p: u128|
            p != post_id ==> (#[trigger] apply_spec(b, SenderEvent::PlanCanceled { post_id }).plans.contains_key(p)
                == b.plans.contains_key(p)),
        forall|p: u128|
            p != post_id && b.plans.contains_key(p) ==> #[trigger] apply_spec(
                b,
                SenderEvent::PlanCanceled { post_id },
            ).plans[p] == b.plans[p],
        apply_spec(b, SenderEvent::PlanCanceled { post_id }).attempts == b.attempts,
        apply_spec(b, SenderEvent::PlanCanceled { post_id }).post_ingress == b.post_ingress,
        !apply_spec(
            apply_spec(b, SenderEvent::PlanSet { post_id, plan }),
            SenderEvent::PlanCanceled { post_id },
        ).plans.contains_key(post_id),
        apply_spec(b, SenderEvent::PlanSet { post_id, plan }).plans.contains_key(post_id),
        apply_spec(b, SenderEvent::PlanSet { post_id, plan }).plans[post_id] == plan,
{
}

} // verus!
