use vstd::prelude::*;

verus! {

/// What a post holds, as mathematical values.
pub struct PostView {
    pub id: u128,
    pub title: Seq<char>,
    pub description: Seq<char>,
    pub tags: Seq<Seq<char>>,
    pub media: Seq<char>,
    pub users_who_liked: Seq<Seq<char>>,
    pub owner_id: Seq<char>,
}

/// A user-authored post. It is never changed after it has been created.
#[derive(Clone, Debug, PartialEq, Eq)]
pub struct Post {
    pub id: u128,
    pub title: String,
    pub description: String,
    pub tags: Vec<String>,
    pub media: String,
    pub users_who_liked: Vec<String>,
    pub owner_id: String,
}

/// The characters of each string of a sequence.
pub open spec fn strings_view(v: Seq<String>) -> Seq<Seq<char>> {
    v.map_values(|s: String| s@)
}

impl View for Post {
    type V = PostView;

    open spec fn view(&self) -> PostView {
        PostView {
            id: self.id,
            title: self.title@,
            description: self.description@,
            tags: strings_view(self.tags@),
            media: self.media@,
            users_who_liked: strings_view(self.users_who_liked@),
            owner_id: self.owner_id@,
        }
    }
}

/// The pieces of `s` between its commas, in order. Empty pieces are kept, so
/// the empty text gives one empty piece.
pub open spec fn split_commas(s: Seq<char>) -> Seq<Seq<char>>
    decreases s.len(),
{
    if s.len() == 0 {
        seq![Seq::<char>::empty()]
    } else {
        let front = split_commas(s.drop_last());
        if s.last() == ',' {
            front.push(Seq::<char>::empty())
        } else {
            front.update(front.len() - 1, front.last().push(s.last()))
        }
    }
}

/// There is always at least one piece.
pub proof fn lemma_split_commas_nonempty(s: Seq<char>)
    ensures
        split_commas(s).len() >= 1,
    decreases s.len(),
{
    if s.len() > 0 {
        lemma_split_commas_nonempty(s.drop_last());
    }
}

/// The post that creation builds from its inputs: no likes yet.
pub open spec fn created_post(
    id: u128,
    title: Seq<char>,
    description: Seq<char>,
    tags_csv: Seq<char>,
    media: Seq<char>,
    owner_id: Seq<char>,
) -> PostView {
    PostView {
        id,
        title,
        description,
        tags: split_commas(tags_csv),
        media,
        users_who_liked: Seq::empty(),
        owner_id,
    }
}

/// Relies on `str::split` with a `char` pattern: the substrings between the
/// matches, in order, an empty one where two commas meet or at either end.
#[verifier::external_body]
fn split_on_commas(s: &String) -> (r: Vec<String>)
    ensures
        strings_view(r@) == split_commas(s@),
{
    s.split(',').map(|piece| piece.to_string()).collect()
}

/// The tags of a comma-separated tag list, with empty ones kept.
pub fn parse_tags(tags_csv: &String) -> (r: Vec<String>)
    ensures
        strings_view(r@) == split_commas(tags_csv@),
        r@.len() >= 1,
{
    let r = split_on_commas(tags_csv);
    proof {
        lemma_split_commas_nonempty(tags_csv@);
    }
    r
}

/// A copy of each string, in the same order.
pub fn copy_strings(v: &Vec<String>) -> (r: Vec<String>)
    ensures
        r@ == v@,
{
    let mut r: Vec<String> = Vec::new();
    let mut i: usize = 0;
    while i < v.len()
        invariant
            i <= v@.len(),
            r@ == v@.subrange(0, i as int),
        decreases v@.len() - i,
    {
        r.push(v[i].clone());
        i = i + 1;
        assert(r@ =~= v@.subrange(0, i as int));
    }
    assert(r@ =~= v@);
    r
}

pub open spec fn posts_view(v: Seq<Post>) -> Seq<PostView> {
    v.map_values(|p: Post| p@)
}

/// An independent copy of each post, in the same order.
pub fn copy_posts(v: &Vec<Post>) -> (r: Vec<Post>)
    ensures
        posts_view(r@) == posts_view(v@),
{
    let mut r: Vec<Post> = Vec::new();
    let mut i: usize = 0;
    while i < v.len()
        invariant
            i <= v@.len(),
            posts_view(r@) == posts_view(v@).subrange(0, i as int),
        decreases v@.len() - i,
    {
        let ghost prev = r@;
        r.push(v[i].snapshot());
        assert(posts_view(r@) =~= posts_view(prev).push(v@[i as int]@));
        i = i + 1;
        assert(posts_view(r@) =~= posts_view(v@).subrange(0, i as int));
    }
    assert(posts_view(v@).subrange(0, i as int) =~= posts_view(v@));
    r
}

impl Post {
    /// An independent copy of every field.
    pub fn snapshot(&self) -> (r: Post)
        ensures
            r@ == self@,
    {
        Post {
            id: self.id,
            title: self.title.clone(),
            description: self.description.clone(),
            tags: copy_strings(&self.tags),
            media: self.media.clone(),
            users_who_liked: copy_strings(&self.users_who_liked),
            owner_id: self.owner_id.clone(),
        }
    }
}

} // verus!
