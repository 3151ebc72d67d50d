use crate::network::{bucket, copies, creation_step, occurrences, NetworkView};
use crate::post::{created_post, split_commas, PostView};
use vstd::prelude::*;

verus! {

/// The creations `created` lead from an empty store through `states`, one
/// creation per step.
pub open spec fn run_from_empty(states: Seq<NetworkView>, created: Seq<PostView>) -> bool {
    &&& states.len() == created.len() + 1
    &&& states[0].posts.len() == 0
    &&& states[0].number_of_posts == 0
    &&& forall|k: int|
        0 <= k < created.len() ==> #[trigger] creation_step(states[k], created[k], states[k + 1])
}

proof fn lemma_run_prefix(states: Seq<NetworkView>, created: Seq<PostView>, j: int)
    requires
        run_from_empty(states, created),
        0 <= j <= created.len(),
    ensures
        states[j].number_of_posts == j,
        states[j].posts == Seq::new(j as nat, |k: int| (created[k].id, created[k])),
        forall|k: int| 0 <= k < j ==> #[trigger] created[k].id == k,
    decreases j,
{
    if j == 0 {
        assert(states[0].posts =~= Seq::new(0, |k: int| (created[k].id, created[k])));
    } else {
        lemma_run_prefix(states, created, j - 1);
        let k = j - 1;
        assert(creation_step(states[k], created[k], states[k + 1]));
        assert(states[j].posts =~= Seq::new(j as nat, |k: int| (created[k].id, created[k])));
    }
}

/// After N creations on an empty store the counter is N, and the k-th
/// creation (counting from one) was given id k - 1.
pub proof fn lemma_ids_follow_creation_order(states: Seq<NetworkView>, created: Seq<PostView>)
    requires
        run_from_empty(states, created),
    ensures
        states.last().number_of_posts == created.len(),
        forall|k: int| 0 <= k < created.len() ==> #[trigger] created[k].id == k,
{
    lemma_run_prefix(states, created, created.len() as int);
}

/// After any creations on an empty store, the listing holds every created
/// post exactly once, with its id, in creation order.
pub proof fn lemma_listing_in_creation_order(states: Seq<NetworkView>, created: Seq<PostView>)
    requires
        run_from_empty(states, created),
    ensures
        states.last().posts.len() == created.len(),
        forall|k: int|
            0 <= k < created.len() ==> #[trigger] states.last().posts[k] == (k as u128, created[k]),
{
    lemma_run_prefix(states, created, created.len() as int);
    assert forall|k: int| 0 <= k < created.len() implies #[trigger] states.last().posts[k] == (
        k as u128,
        created[k],
    ) by {
        assert(created[k].id == k);
    }
}

/// A post created with the tag text "a,b,a" has the tags a, b, a, and is
/// filed twice more under a and once more under b.
pub proof fn lemma_repeated_tags_kept(before: NetworkView, p: PostView, after: NetworkView)
    requires
        creation_step(before, p, after),
        p.tags == split_commas(seq!['a', ',', 'b', ',', 'a']),
    ensures
        p.tags == seq![seq!['a'], seq!['b'], seq!['a']],
        bucket(after.by_tag, seq!['a']) == bucket(before.by_tag, seq!['a']) + seq![p, p],
        bucket(after.by_tag, seq!['b']) == bucket(before.by_tag, seq!['b']) + seq![p],
{
    let s = seq!['a', ',', 'b', ',', 'a'];
    assert(s.drop_last() =~= seq!['a', ',', 'b', ',']);
    assert(s.drop_last().drop_last() =~= seq!['a', ',', 'b']);
    assert(s.drop_last().drop_last().drop_last() =~= seq!['a', ',']);
    assert(s.drop_last().drop_last().drop_last().drop_last() =~= seq!['a']);
    assert(seq!['a'].drop_last() =~= Seq::<char>::empty());
    assert(split_commas(Seq::<char>::empty()) == seq![Seq::<char>::empty()]);
    assert(split_commas(seq!['a']) =~= seq![seq!['a']]) by {
        assert(Seq::<char>::empty().push('a') =~= seq!['a']);
    }
    assert(split_commas(seq!['a', ',']) =~= seq![seq!['a'], Seq::<char>::empty()]);
    assert(split_commas(seq!['a', ',', 'b']) =~= seq![seq!['a'], seq!['b']]) by {
        assert(Seq::<char>::empty().push('b') =~= seq!['b']);
    }
    assert(split_commas(seq!['a', ',', 'b', ',']) =~= seq![
        seq!['a'],
        seq!['b'],
        Seq::<char>::empty(),
    ]);
    assert(split_commas(s) =~= seq![seq!['a'], seq!['b'], seq!['a']]) by {
        assert(Seq::<char>::empty().push('a') =~= seq!['a']);
    }
    let tags = seq![seq!['a'], seq!['b'], seq!['a']];
    assert(tags.drop_last() =~= seq![seq!['a'], seq!['b']]);
    assert(tags.drop_last().drop_last() =~= seq![seq!['a']]);
    assert(tags.drop_last().drop_last().drop_last() =~= Seq::<Seq<char>>::empty());
    assert(seq!['a'] != seq!['b']) by {
        assert(seq!['a'][0] != seq!['b'][0]);
    }
    assert(occurrences(Seq::<Seq<char>>::empty(), seq!['a']) == 0);
    assert(occurrences(Seq::<Seq<char>>::empty(), seq!['b']) == 0);
    assert(occurrences(seq![seq!['a']], seq!['a']) == 1);
    assert(occurrences(seq![seq!['a']], seq!['b']) == 0);
    assert(occurrences(seq![seq!['a'], seq!['b']], seq!['a']) == 1);
    assert(occurrences(seq![seq!['a'], seq!['b']], seq!['b']) == 1);
    assert(occurrences(tags, seq!['a']) == 2);
    assert(occurrences(tags, seq!['b']) == 1);
    assert(bucket(after.by_tag, seq!['a']) == bucket(before.by_tag, seq!['a']) + copies(p, 2));
    assert(bucket(after.by_tag, seq!['b']) == bucket(before.by_tag, seq!['b']) + copies(p, 1));
    assert(copies(p, 2) =~= seq![p, p]);
    assert(copies(p, 1) =~= seq![p]);
}

/// A post created with the empty tag text has one empty tag, and is filed
/// under the empty tag.
pub proof fn lemma_empty_tag_text(before: NetworkView, p: PostView, after: NetworkView)
    requires
        creation_step(before, p, after),
        p.tags == split_commas(Seq::<char>::empty()),
    ensures
        p.tags == seq![Seq::<char>::empty()],
        bucket(after.by_tag, Seq::<char>::empty()) == bucket(
            before.by_tag,
            Seq::<char>::empty(),
        ).push(p),
        bucket(after.by_tag, Seq::<char>::empty()).contains(p),
{
    let e = Seq::<char>::empty();
    let tags = seq![e];
    assert(tags.drop_last() =~= Seq::<Seq<char>>::empty());
    assert(occurrences(Seq::<Seq<char>>::empty(), e) == 0);
    assert(occurrences(tags, e) == 1);
    assert(bucket(after.by_tag, e) == bucket(before.by_tag, e) + copies(p, 1));
    assert(bucket(before.by_tag, e) + copies(p, 1) =~= bucket(before.by_tag, e).push(p));
    let b = bucket(after.by_tag, e);
    assert(b[b.len() - 1] == p);
}

/// A created post is listed last, with its id and exactly the fields that
/// creation gave it: the owner at the time of the call and no likes.
pub proof fn lemma_listing_returns_created(
    before: NetworkView,
    p: PostView,
    after: NetworkView,
    title: Seq<char>,
    description: Seq<char>,
    tags_csv: Seq<char>,
    media: Seq<char>,
    owner_id: Seq<char>,
)
    requires
        creation_step(before, p, after),
        p == created_post(before.number_of_posts, title, description, tags_csv, media, owner_id),
    ensures
        after.posts.last() == (before.number_of_posts, p),
        after.posts.last().1.owner_id == owner_id,
        after.posts.last().1.users_who_liked == Seq::<Seq<char>>::empty(),
        after.posts.last().1.title == title,
        after.posts.last().1.description == description,
        after.posts.last().1.tags == split_commas(tags_csv),
        after.posts.last().1.media == media,
{
}

} // verus!
