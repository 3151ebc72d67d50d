use social_posts::{parse_tags, Post, SocialNetworking};

fn s(text: &str) -> String {
    text.to_string()
}

fn strings(items: &[&str]) -> Vec<String> {
    items.iter().map(|t| t.to_string()).collect()
}

#[test]
fn new_store_is_empty() {
    let store = SocialNetworking::new();
    assert_eq!(store.number_of_posts(), 0);
    assert!(store.get_all_posts().is_empty());
    assert!(store.get_posts_by_tag(&s("news")).is_empty());
}

#[test]
fn default_store_is_empty() {
    let store = SocialNetworking::default();
    assert_eq!(store.number_of_posts(), 0);
    assert!(store.get_all_posts().is_empty());
}

#[test]
fn counter_and_ids_follow_calls() {
    let mut store = SocialNetworking::new();
    for k in 0..5u128 {
        let p = store.add_post_as(s("u.near"), s("t"), s("d"), s("x"), s("m"));
        assert_eq!(p.id, k);
        assert_eq!(store.number_of_posts(), k + 1);
    }
    assert_eq!(store.number_of_posts(), 5);
}

#[test]
fn listing_in_creation_order() {
    let mut store = SocialNetworking::new();
    let mut made: Vec<Post> = Vec::new();
    for title in ["one", "two", "three"] {
        made.push(store.add_post_as(s("u.near"), s(title), s("d"), s("x,y"), s("")));
    }
    let listed = store.get_all_posts();
    assert_eq!(listed.len(), 3);
    for (k, (id, post)) in listed.iter().enumerate() {
        assert_eq!(*id, k as u128);
        assert_eq!(*post, made[k]);
    }
}

#[test]
fn repeated_tags_are_kept() {
    let mut store = SocialNetworking::new();
    let p = store.add_post_as(s("u.near"), s("t"), s("d"), s("a,b,a"), s(""));
    assert_eq!(p.tags, strings(&["a", "b", "a"]));
    let a = store.get_posts_by_tag(&s("a"));
    let b = store.get_posts_by_tag(&s("b"));
    assert_eq!(a.len(), 2);
    assert_eq!(b.len(), 1);
    assert_eq!(a[0], p);
    assert_eq!(a[1], p);
    assert_eq!(b[0], p);
}

#[test]
fn empty_tag_text_gives_one_empty_tag() {
    let mut store = SocialNetworking::new();
    let p = store.add_post_as(s("u.near"), s("t"), s("d"), s(""), s(""));
    assert_eq!(p.tags, strings(&[""]));
    let bucket = store.get_posts_by_tag(&s(""));
    assert_eq!(bucket, vec![p]);
}

#[test]
fn listing_returns_post_as_created() {
    let mut store = SocialNetworking::new();
    let p = store.add_post_as(s("carol.near"), s("Title"), s("Desc"), s("x"), s("img.png"));
    let listed = store.get_all_posts();
    assert_eq!(listed.len(), 1);
    assert_eq!(listed[0].0, 0);
    assert_eq!(listed[0].1, p);
    assert_eq!(listed[0].1.owner_id, "carol.near");
    assert!(listed[0].1.users_who_liked.is_empty());
    assert_eq!(listed[0].1.title, "Title");
    assert_eq!(listed[0].1.description, "Desc");
    assert_eq!(listed[0].1.media, "img.png");
}

#[test]
fn two_posts_two_identities() {
    let mut store = SocialNetworking::new();
    let first = store.add_post_as(s("u1.near"), s("Hello"), s("First"), s("intro,news"), s(""));
    assert_eq!(first.id, 0);
    assert_eq!(first.owner_id, "u1.near");
    assert_eq!(first.tags, strings(&["intro", "news"]));
    assert!(first.users_who_liked.is_empty());
    let second = store.add_post_as(s("u2.near"), s("Again"), s("Second"), s("news"), s(""));
    assert_eq!(second.id, 1);
    assert_eq!(second.owner_id, "u2.near");
    let listed = store.get_all_posts();
    assert_eq!(listed.len(), 2);
    assert_eq!(listed[0].0, 0);
    assert_eq!(listed[1].0, 1);
    assert_eq!(listed[0].1, first);
    assert_eq!(listed[1].1, second);
    assert_eq!(store.get_posts_by_tag(&s("news")), vec![first.clone(), second]);
    assert_eq!(store.get_posts_by_tag(&s("intro")), vec![first]);
}

#[test]
fn add_post_records_signer() {
    let mut store = SocialNetworking::new();
    let p = store.add_post(s("Hello"), s("First"), s("intro"), s(""));
    assert_eq!(p.id, 0);
    assert_eq!(p.owner_id, "bob.near");
    assert_eq!(store.get_all_posts()[0].1.owner_id, "bob.near");
}

#[test]
fn fan_out_appends_once_per_tag_entry() {
    let mut store = SocialNetworking::new();
    let post = Post {
        id: 7,
        title: s("t"),
        description: s("d"),
        tags: strings(&["k"]),
        media: s(""),
        users_who_liked: Vec::new(),
        owner_id: s("u.near"),
    };
    store.add_posts_by_tag(post.clone(), strings(&["k", "k", "j"]));
    assert_eq!(store.get_posts_by_tag(&s("k")), vec![post.clone(), post.clone()]);
    assert_eq!(store.get_posts_by_tag(&s("j")), vec![post.clone()]);
    store.add_posts_by_tag(post.clone(), strings(&["j"]));
    assert_eq!(store.get_posts_by_tag(&s("j")).len(), 2);
    assert!(store.get_all_posts().is_empty());
    assert_eq!(store.number_of_posts(), 0);
}

#[test]
fn bucket_snapshots_are_copies() {
    let mut store = SocialNetworking::new();
    let p = store.add_post_as(s("u.near"), s("t"), s("d"), s("z"), s(""));
    let mut listed = store.get_all_posts();
    listed[0].1.title = s("changed");
    assert_eq!(store.get_posts_by_tag(&s("z"))[0], p);
    assert_eq!(store.get_all_posts()[0].1.title, "t");
}

#[test]
fn second_store_starts_empty() {
    let mut first = SocialNetworking::new();
    first.add_post_as(s("u.near"), s("t"), s("d"), s("a"), s(""));
    let mut second = SocialNetworking::new();
    let p = second.add_post_as(s("v.near"), s("t2"), s("d2"), s("a"), s(""));
    assert_eq!(p.id, 0);
    assert_eq!(second.get_posts_by_tag(&s("a")), vec![p]);
    assert_eq!(first.get_posts_by_tag(&s("a")).len(), 1);
}

#[test]
fn unknown_tag_has_empty_bucket() {
    let mut store = SocialNetworking::new();
    store.add_post_as(s("u.near"), s("t"), s("d"), s("a"), s(""));
    assert!(store.get_posts_by_tag(&s("b")).is_empty());
}

#[test]
fn tags_split_on_commas_only() {
    assert_eq!(parse_tags(&s(",x,")), strings(&["", "x", ""]));
    assert_eq!(parse_tags(&s("a b, c")), strings(&["a b", " c"]));
    assert_eq!(parse_tags(&s("solo")), strings(&["solo"]));
    assert_eq!(parse_tags(&s(",")), strings(&["", ""]));
    assert_eq!(parse_tags(&s("")), strings(&[""]));
}

#[test]
fn snapshot_keeps_fields() {
    let p = Post {
        id: 3,
        title: s("t"),
        description: s("d"),
        tags: strings(&["a", ""]),
        media: s("m"),
        users_who_liked: strings(&["x.near"]),
        owner_id: s("o.near"),
    };
    assert_eq!(p.snapshot(), p);
}
