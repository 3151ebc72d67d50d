use crate::host::signer_id;
use crate::post::{copy_posts, copy_strings, created_post, parse_tags, posts_view, strings_view, Post, PostView};
use vstd::prelude::*;

verus! {

/// The store as mathematical values: the posts in creation order with their
/// ids, the post counter, and the tag index.
pub struct NetworkView {
    pub posts: Seq<(u128, PostView)>,
    pub number_of_posts: u128,
    pub by_tag: Map<Seq<char>, Seq<PostView>>,
}

/// The snapshots filed under `tag`; none where the tag was never seen.
pub open spec fn bucket(by_tag: Map<Seq<char>, Seq<PostView>>, tag: Seq<char>) -> Seq<PostView> {
    if by_tag.contains_key(tag) {
        by_tag[tag]
    } else {
        Seq::empty()
    }
}

/// How often `tag` occurs in `tags`.
pub open spec fn occurrences(tags: Seq<Seq<char>>, tag: Seq<char>) -> nat
    decreases tags.len(),
{
    if tags.len() == 0 {
        0
    } else {
        occurrences(tags.drop_last(), tag) + if tags.last() == tag {
            1nat
        } else {
            0nat
        }
    }
}

/// `n` snapshots of `p`.
pub open spec fn copies(p: PostView, n: nat) -> Seq<PostView> {
    Seq::new(n, |i: int| p)
}

/// `after` is `before` with one snapshot of `p` appended to the bucket of each
/// entry of `tags`, once per entry.
pub open spec fn fanned_out(
    before: Map<Seq<char>, Seq<PostView>>,
    p: PostView,
    tags: Seq<Seq<char>>,
    after: Map<Seq<char>, Seq<PostView>>,
) -> bool {
    forall|t: Seq<char>| #[trigger]
        bucket(after, t) == bucket(before, t) + copies(p, occurrences(tags, t))
}

/// `after` holds a bucket for each tag that `before` holds and for each entry
/// of `tags`, and for no other.
pub open spec fn tags_added(
    before: Map<Seq<char>, Seq<PostView>>,
    tags: Seq<Seq<char>>,
    after: Map<Seq<char>, Seq<PostView>>,
) -> bool {
    after.dom() == before.dom().union(tags.to_set())
}

/// The bucket of `tag` that the given posts call for: each post, in order, once
/// for each time it carries the tag.
pub open spec fn bucket_of(posts: Seq<(u128, PostView)>, tag: Seq<char>) -> Seq<PostView>
    decreases posts.len(),
{
    if posts.len() == 0 {
        Seq::empty()
    } else {
        bucket_of(posts.drop_last(), tag) + copies(
            posts.last().1,
            occurrences(posts.last().1.tags, tag),
        )
    }
}

/// One creation: `p` takes the next id, is listed last, and is filed under
/// each of its tags.
pub open spec fn creation_step(before: NetworkView, p: PostView, after: NetworkView) -> bool {
    &&& p.id == before.number_of_posts
    &&& p.users_who_liked.len() == 0
    &&& after.number_of_posts == before.number_of_posts + 1
    &&& after.posts == before.posts.push((p.id, p))
    &&& fanned_out(before.by_tag, p, p.tags, after.by_tag)
    &&& tags_added(before.by_tag, p.tags, after.by_tag)
}

impl NetworkView {
    /// The counter equals the number of posts, and the post at place `i`
    /// has id `i`.
    pub open spec fn wf(self) -> bool {
        &&& self.posts.len() == self.number_of_posts
        &&& forall|i: int|
            0 <= i < self.posts.len() ==> #[trigger] self.posts[i].0 == i && self.posts[i].1.id
                == i && self.posts[i].1.users_who_liked.len() == 0
    }

    /// Each bucket holds exactly what the posts call for.
    pub open spec fn index_consistent(self) -> bool {
        forall|t: Seq<char>| #[trigger] bucket(self.by_tag, t) == bucket_of(self.posts, t)
    }
}

pub open spec fn entries_view(v: Seq<(u128, Post)>) -> Seq<(u128, PostView)> {
    v.map_values(|e: (u128, Post)| (e.0, e.1@))
}

/// The tag index that a list of (tag, bucket) pairs holds.
pub open spec fn tag_index_view(v: Seq<(String, Vec<Post>)>) -> Map<Seq<char>, Seq<PostView>> {
    Map::new(
        |k: Seq<char>| exists|i: int| 0 <= i < v.len() && v[i].0@ == k,
        |k: Seq<char>| posts_view(v[choose|i: int| 0 <= i < v.len() && v[i].0@ == k].1@),
    )
}

/// No tag occurs twice in a list of (tag, bucket) pairs.
pub open spec fn keys_unique(v: Seq<(String, Vec<Post>)>) -> bool {
    forall|i: int, j: int|
        0 <= i < v.len() && 0 <= j < v.len() && #[trigger] v[i].0@ == #[trigger] v[j].0@ ==> i
            == j
}

proof fn lemma_index_update(v: Seq<(String, Vec<Post>)>, idx: int, e: (String, Vec<Post>))
    requires
        keys_unique(v),
        0 <= idx < v.len(),
        e.0@ == v[idx].0@,
    ensures
        keys_unique(v.update(idx, e)),
        tag_index_view(v.update(idx, e)) == tag_index_view(v).insert(e.0@, posts_view(e.1@)),
{
    let w = v.update(idx, e);
    assert forall|i: int| 0 <= i < w.len() implies #[trigger] w[i].0@ == v[i].0@ by {}
    assert(keys_unique(w)) by {
        assert forall|i: int, j: int|
            0 <= i < w.len() && 0 <= j < w.len() && #[trigger] w[i].0@ == #[trigger] w[j].0@
            implies i == j by {
            assert(v[i].0@ == w[i].0@ && v[j].0@ == w[j].0@);
        }
    }
    let m1 = tag_index_view(w);
    let m2 = tag_index_view(v).insert(e.0@, posts_view(e.1@));
    assert forall|k: Seq<char>| m1.contains_key(k) <==> m2.contains_key(k) by {
        if m1.contains_key(k) {
            let i = choose|i: int| 0 <= i < w.len() && w[i].0@ == k;
            assert(v[i].0@ == k);
        }
        if tag_index_view(v).contains_key(k) {
            let i = choose|i: int| 0 <= i < v.len() && v[i].0@ == k;
            assert(w[i].0@ == k);
        }
        if k == e.0@ {
            assert(w[idx].0@ == k);
        }
    }
    assert forall|k: Seq<char>| m1.contains_key(k) implies m1[k] == m2[k] by {
        let j = choose|i: int| 0 <= i < w.len() && w[i].0@ == k;
        if k == e.0@ {
            assert(w[idx].0@ == k);
            assert(w[j].0@ == w[idx].0@);
            assert(j == idx);
        } else {
            assert(v[j].0@ == k);
            let j0 = choose|i: int| 0 <= i < v.len() && v[i].0@ == k;
            assert(v[j0].0@ == v[j].0@);
            assert(j0 == j);
        }
    }
    assert(m1 =~= m2);
}

proof fn lemma_index_push(v: Seq<(String, Vec<Post>)>, e: (String, Vec<Post>))
    requires
        keys_unique(v),
        forall|i: int| 0 <= i < v.len() ==> v[i].0@ != e.0@,
    ensures
        keys_unique(v.push(e)),
        tag_index_view(v.push(e)) == tag_index_view(v).insert(e.0@, posts_view(e.1@)),
{
    let w = v.push(e);
    let n = v.len() as int;
    assert forall|i: int| 0 <= i < v.len() implies #[trigger] w[i] == v[i] by {}
    assert(keys_unique(w)) by {
        assert forall|i: int, j: int|
            0 <= i < w.len() && 0 <= j < w.len() && #[trigger] w[i].0@ == #[trigger] w[j].0@
            implies i == j by {
            if i < n && j < n {
                assert(v[i].0@ == v[j].0@);
            } else if i < n {
                assert(v[i].0@ == e.0@);
            } else if j < n {
                assert(v[j].0@ == e.0@);
            }
        }
    }
    let m1 = tag_index_view(w);
    let m2 = tag_index_view(v).insert(e.0@, posts_view(e.1@));
    assert forall|k: Seq<char>| m1.contains_key(k) <==> m2.contains_key(k) by {
        if m1.contains_key(k) {
            let i = choose|i: int| 0 <= i < w.len() && w[i].0@ == k;
            if i < n {
                assert(v[i].0@ == k);
            }
        }
        if tag_index_view(v).contains_key(k) {
            let i = choose|i: int| 0 <= i < v.len() && v[i].0@ == k;
            assert(w[i].0@ == k);
        }
        if k == e.0@ {
            assert(w[n].0@ == k);
        }
    }
    assert forall|k: Seq<char>| m1.contains_key(k) implies m1[k] == m2[k] by {
        let j = choose|i: int| 0 <= i < w.len() && w[i].0@ == k;
        if k == e.0@ {
            assert(w[n].0@ == k);
            assert(w[j].0@ == w[n].0@);
            assert(j == n);
        } else {
            assert(j < n);
            assert(v[j].0@ == k);
            let j0 = choose|i: int| 0 <= i < v.len() && v[i].0@ == k;
            assert(w[j0].0@ == w[j].0@);
            assert(j0 == j);
        }
    }
    assert(m1 =~= m2);
}

/// The place of `tag` in a list of (tag, bucket) pairs, if it is there.
fn find_tag(v: &Vec<(String, Vec<Post>)>, tag: &String) -> (r: Option<usize>)
    ensures
        match r {
            Some(i) => i < v@.len() && v@[i as int].0@ == tag@,
            None => forall|i: int| 0 <= i < v@.len() ==> v@[i].0@ != tag@,
        },
{
    let mut i: usize = 0;
    while i < v.len()
        invariant
            i <= v@.len(),
            forall|j: int| 0 <= j < i ==> v@[j].0@ != tag@,
        decreases v@.len() - i,
    {
        if v[i].0 == *tag {
            return Some(i);
        }
        i = i + 1;
    }
    None
}

/// The post store: posts by id, the id counter, and the tag index.
pub struct SocialNetworking {
    posts: Vec<(u128, Post)>,
    number_of_posts: u128,
    /// Reserved: no operation fills or reads it.
    likes_by_user: Vec<(String, Vec<Post>)>,
    posts_by_tag: Vec<(String, Vec<Post>)>,
}

impl View for SocialNetworking {
    type V = NetworkView;

    closed spec fn view(&self) -> NetworkView {
        NetworkView {
            posts: entries_view(self.posts@),
            number_of_posts: self.number_of_posts,
            by_tag: tag_index_view(self.posts_by_tag@),
        }
    }
}

proof fn lemma_copies_push(p: PostView, n: nat)
    ensures
        copies(p, n + 1) == copies(p, n).push(p),
{
    assert(copies(p, n + 1) =~= copies(p, n).push(p));
}

impl SocialNetworking {
    /// The store's own invariant: the view is well formed and no tag has two
    /// buckets.
    pub closed spec fn well_formed(&self) -> bool {
        &&& self@.wf()
        &&& keys_unique(self.posts_by_tag@)
    }

    /// An empty store.
    pub fn new() -> (r: SocialNetworking)
        ensures
            r@.posts.len() == 0,
            r@.number_of_posts == 0,
            r@.by_tag.dom() == Set::<Seq<char>>::empty(),
            r.well_formed(),
            r@.wf(),
            r@.index_consistent(),
    {
        let r = SocialNetworking {
            posts: Vec::new(),
            number_of_posts: 0,
            likes_by_user: Vec::new(),
            posts_by_tag: Vec::new(),
        };
        assert(r@.posts =~= Seq::<(u128, PostView)>::empty());
        assert(r@.by_tag.dom() =~= Set::<Seq<char>>::empty());
        assert forall|t: Seq<char>| #[trigger] bucket(r@.by_tag, t) == bucket_of(r@.posts, t) by {
            assert(bucket_of(r@.posts, t) =~= Seq::<PostView>::empty());
        }
        r
    }

    /// The number of posts created so far, which is also the next id.
    pub fn number_of_posts(&self) -> (r: u128)
        ensures
            r == self@.number_of_posts,
    {
        self.number_of_posts
    }

    /// Appends a snapshot of `post` to the bucket of each entry of `tags`,
    /// starting a bucket where there is none.
    pub fn add_posts_by_tag(&mut self, post: Post, tags: Vec<String>)
        requires
            old(self).well_formed(),
        ensures
            final(self).well_formed(),
            final(self)@.posts == old(self)@.posts,
            final(self)@.number_of_posts == old(self)@.number_of_posts,
            fanned_out(old(self)@.by_tag, post@, strings_view(tags@), final(self)@.by_tag),
            tags_added(old(self)@.by_tag, strings_view(tags@), final(self)@.by_tag),
    {
        let ghost before = self@.by_tag;
        let ghost tag_seq = strings_view(tags@);
        let mut i: usize = 0;
        assert forall|t: Seq<char>| #[trigger]
            bucket(self@.by_tag, t) == bucket(before, t) + copies(
                post@,
                occurrences(tag_seq.subrange(0, 0), t),
            ) by {
            assert(bucket(before, t) + copies(post@, 0) =~= bucket(before, t));
        }
        assert(self@.by_tag.dom() =~= before.dom().union(tag_seq.subrange(0, 0).to_set()));
        while i < tags.len()
            invariant
                i <= tags@.len(),
                tag_seq == strings_view(tags@),
                self.well_formed(),
                self@.posts == old(self)@.posts,
                self@.number_of_posts == old(self)@.number_of_posts,
                before == old(self)@.by_tag,
                fanned_out(before, post@, tag_seq.subrange(0, i as int), self@.by_tag),
                tags_added(before, tag_seq.subrange(0, i as int), self@.by_tag),
            decreases tags@.len() - i,
        {
            let tag = &tags[i];
            let ghost mid = self@.by_tag;
            let ghost v = self.posts_by_tag@;
            match find_tag(&self.posts_by_tag, tag) {
                Some(idx) => {
                    let mut posts_for_tag = copy_posts(&self.posts_by_tag[idx].1);
                    let ghost prev = posts_for_tag@;
                    posts_for_tag.push(post.snapshot());
                    assert(posts_view(posts_for_tag@) =~= posts_view(prev).push(post@));
                    proof {
                        assert(mid[tag@] == posts_view(v[idx as int].1@)) by {
                            let j = choose|j: int| 0 <= j < v.len() && v[j].0@ == tag@;
                            assert(v[j].0@ == v[idx as int].0@);
                        }
                    }
                    let entry = (tag.clone(), posts_for_tag);
                    proof {
                        lemma_index_update(v, idx as int, entry);
                    }
                    self.posts_by_tag.set(idx, entry);
                },
                None => {
                    let mut posts_for_tag: Vec<Post> = Vec::new();
                    posts_for_tag.push(post.snapshot());
                    assert(posts_view(posts_for_tag@) =~= Seq::<PostView>::empty().push(post@));
                    let entry = (tag.clone(), posts_for_tag);
                    proof {
                        lemma_index_push(v, entry);
                    }
                    self.posts_by_tag.push(entry);
                },
            }
            proof {
                let sub = tag_seq.subrange(0, i as int);
                let sub1 = tag_seq.subrange(0, i as int + 1);
                assert(sub1.drop_last() =~= sub);
                assert(sub1 =~= sub.push(tag@));
                assert(sub1.last() == tag@);
                assert(self@.by_tag == mid.insert(tag@, bucket(mid, tag@).push(post@)));
                assert forall|t: Seq<char>| #[trigger]
                    bucket(self@.by_tag, t) == bucket(before, t) + copies(
                        post@,
                        occurrences(sub1, t),
                    ) by {
                    let n = occurrences(sub, t);
                    assert(bucket(mid, t) == bucket(before, t) + copies(post@, n));
                    if t == tag@ {
                        lemma_copies_push(post@, n);
                        assert(bucket(self@.by_tag, t) =~= bucket(before, t) + copies(
                            post@,
                            n + 1,
                        ));
                    }
                }
                assert forall|t: Seq<char>| sub1.to_set().contains(t) <==> sub.to_set().insert(
                    tag@,
                ).contains(t) by {
                    if sub1.contains(t) && t != tag@ {
                        let j = choose|j: int| 0 <= j < sub1.len() && sub1[j] == t;
                        assert(sub[j] == t);
                    }
                    if sub.contains(t) {
                        let j = choose|j: int| 0 <= j < sub.len() && sub[j] == t;
                        assert(sub1[j] == t);
                    }
                    if t == tag@ {
                        assert(sub1[i as int] == t);
                    }
                }
                assert(sub1.to_set() =~= sub.to_set().insert(tag@));
                assert(self@.by_tag.dom() =~= before.dom().union(sub1.to_set()));
            }
            i = i + 1;
        }
        assert(tag_seq.subrange(0, tags@.len() as int) =~= tag_seq);
    }

    /// Creates a post owned by `owner_id`: it takes the next id, has the
    /// comma-separated pieces of `tags` as its tags and no likes, is listed
    /// after every earlier post, and a snapshot of it is filed under each tag.
    pub fn add_post_as(
        &mut self,
        owner_id: String,
        title: String,
        description: String,
        tags: String,
        media: String,
    ) -> (r: Post)
        requires
            old(self).well_formed(),
            old(self)@.number_of_posts < u128::MAX,
        ensures
            r@ == created_post(
                old(self)@.number_of_posts,
                title@,
                description@,
                tags@,
                media@,
                owner_id@,
            ),
            creation_step(old(self)@, r@, final(self)@),
            final(self).well_formed(),
            final(self)@.wf(),
            old(self)@.index_consistent() ==> final(self)@.index_consistent(),
    {
        let ghost before = self@;
        let tag_list = parse_tags(&tags);
        let post = Post {
            id: self.number_of_posts,
            title,
            description,
            tags: copy_strings(&tag_list),
            media,
            users_who_liked: Vec::new(),
            owner_id,
        };
        assert(post@.users_who_liked =~= Seq::<Seq<char>>::empty());
        let ghost prev = self.posts@;
        self.posts.push((post.id, post.snapshot()));
        assert(entries_view(self.posts@) =~= entries_view(prev).push((post.id, post@)));
        self.number_of_posts = self.number_of_posts + 1;
        self.add_posts_by_tag(post.snapshot(), tag_list);
        proof {
            let after = self@;
            assert(after.posts.drop_last() =~= before.posts);
            assert forall|i: int| 0 <= i < after.posts.len() implies #[trigger] after.posts[i].0
                == i && after.posts[i].1.id == i && after.posts[i].1.users_who_liked.len() == 0 by {
                if i < before.posts.len() {
                    assert(after.posts[i] == before.posts[i]);
                }
            }
            if before.index_consistent() {
                assert forall|t: Seq<char>| #[trigger] bucket(after.by_tag, t) == bucket_of(
                    after.posts,
                    t,
                ) by {
                    assert(bucket(before.by_tag, t) == bucket_of(before.posts, t));
                }
            }
        }
        post
    }

    /// Creates a post owned by the account that signed the current call, as
    /// `add_post_as` does.
    pub fn add_post(&mut self, title: String, description: String, tags: String, media: String) -> (r:
        Post)
        requires
            old(self).well_formed(),
            old(self)@.number_of_posts < u128::MAX,
        ensures
            r@ == created_post(
                old(self)@.number_of_posts,
                title@,
                description@,
                tags@,
                media@,
                r@.owner_id,
            ),
            creation_step(old(self)@, r@, final(self)@),
            final(self).well_formed(),
            final(self)@.wf(),
            old(self)@.index_consistent() ==> final(self)@.index_consistent(),
    {
        let owner_id = signer_id();
        self.add_post_as(owner_id, title, description, tags, media)
    }

    /// Every post with its id, in creation order.
    pub fn get_all_posts(&self) -> (r: Vec<(u128, Post)>)
        ensures
            entries_view(r@) == self@.posts,
    {
        let mut r: Vec<(u128, Post)> = Vec::new();
        let mut i: usize = 0;
        while i < self.posts.len()
            invariant
                i <= self.posts@.len(),
                entries_view(r@) == entries_view(self.posts@).subrange(0, i as int),
            decreases self.posts@.len() - i,
        {
            let entry = &self.posts[i];
            let ghost prev = r@;
            r.push((entry.0, entry.1.snapshot()));
            assert(entries_view(r@) =~= entries_view(prev).push(entries_view(self.posts@)[i as int]));
            i = i + 1;
            assert(entries_view(r@) =~= entries_view(self.posts@).subrange(0, i as int));
        }
        assert(entries_view(self.posts@).subrange(0, i as int) =~= entries_view(self.posts@));
        r
    }

    /// The snapshots filed under `tag`, oldest first; empty where the tag was
    /// never used.
    pub fn get_posts_by_tag(&self, tag: &String) -> (r: Vec<Post>)
        requires
            self.well_formed(),
        ensures
            posts_view(r@) == bucket(self@.by_tag, tag@),
    {
        match find_tag(&self.posts_by_tag, tag) {
            Some(idx) => {
                proof {
                    let v = self.posts_by_tag@;
                    let j = choose|j: int| 0 <= j < v.len() && v[j].0@ == tag@;
                    assert(v[j].0@ == v[idx as int].0@);
                }
                copy_posts(&self.posts_by_tag[idx].1)
            },
            None => {
                let r: Vec<Post> = Vec::new();
                assert(posts_view(r@) =~= Seq::<PostView>::empty());
                r
            },
        }
    }
}

impl Default for SocialNetworking {
    /// An empty store, as `new` makes it.
    fn default() -> (r: SocialNetworking)
        ensures
            r@.posts.len() == 0,
            r@.number_of_posts == 0,
            r@.by_tag.dom() == Set::<Seq<char>>::empty(),
            r.well_formed(),
            r@.wf(),
            r@.index_consistent(),
    {
        SocialNetworking::new()
    }
}

} // verus!
