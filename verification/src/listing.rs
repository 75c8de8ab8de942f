use vstd::prelude::*;
use crate::codec::{decode_post, parse_post};
use crate::color::{color_of, generate_color_from_id};
use crate::post::{root_sentinel, views_of, Post, PostView};
use crate::store::{scan_matches, store_map, Store, StoreError};
use crate::text::{clip_chars, str_eq};
use std::collections::hash_map::DefaultHasher;
use vstd::std_specs::hash::DefaultHasherAdditionalSpecFns;
use vstd::utf8::encode_utf8;

verus! {

/// The number of root posts on one listing page.
pub const PAGE_SIZE: usize = 30;

/// How many characters of a message the listing shows before clipping.
pub const LISTING_CLIP_CHARS: usize = 2700;

/// Whether `ps` (reached through keys `ks`) is exactly the readable
/// contents of the store `m`: distinct keys, each present in `m` with a
/// record that decodes to the matching post, and no readable record left
/// out.  Unreadable records are skipped, never more than that.
pub open spec fn listing_of(m: Map<Seq<char>, Seq<u8>>, ps: Seq<PostView>, ks: Seq<Seq<char>>) -> bool {
    &&& ks.len() == ps.len()
    &&& forall|i: int, j: int| 0 <= i < j < ks.len() ==> ks[i] != ks[j]
    &&& forall|i: int|
        0 <= i < ks.len() ==> m.contains_key(#[trigger] ks[i]) && parse_post(m[ks[i]]) == Some(
            ps[i],
        )
    &&& forall|k: Seq<char>|
        #[trigger] m.contains_key(k) && parse_post(m[k]) is Some ==> exists|i: int|
            0 <= i < ks.len() && ks[i] == k
}

/// Whether some choice of keys shows `ps` to be exactly the readable
/// contents of `m`.
pub open spec fn complete_listing(m: Map<Seq<char>, Seq<u8>>, ps: Seq<PostView>) -> bool {
    exists|ks: Seq<Seq<char>>| listing_of(m, ps, ks)
}

/// Reads every post in the store by one full scan.  A record that cannot
/// be decoded is skipped; it never stops the listing.
#[verifier::rlimit(100)]
pub fn load_posts(store: &Store) -> (r: Result<Vec<Post>, StoreError>)
    ensures
        match r {
            Ok(v) => complete_listing(store_map(*store), views_of(v@)),
            Err(_) => true,
        },
{
    let pairs = match store.scan_raw() {
        Ok(v) => v,
        Err(e) => {
            return Err(e);
        },
    };
    let ghost m = store_map(*store);
    let mut out: Vec<Post> = Vec::new();
    let ghost mut ks: Seq<Seq<char>> = Seq::empty();
    let n = pairs.len();
    let mut idx: usize = 0;
    while idx < n
        invariant
            idx <= n,
            n == pairs@.len(),
            scan_matches(m, pairs@),
            m == store_map(*store),
            ks.len() == views_of(out@).len(),
            forall|i: int, j: int| 0 <= i < j < ks.len() ==> ks[i] != ks[j],
            forall|i: int|
                0 <= i < ks.len() ==> m.contains_key(#[trigger] ks[i]) && parse_post(m[ks[i]])
                    == Some(views_of(out@)[i]),
            forall|i: int|
                0 <= i < ks.len() ==> exists|j: int| 0 <= j < idx && pairs@[j].0@ == #[trigger] ks[i],
            forall|j: int|
                0 <= j < idx && parse_post(#[trigger] pairs@[j].1@) is Some ==> exists|i: int|
                    0 <= i < ks.len() && ks[i] == pairs@[j].0@,
        decreases n - idx,
    {
        let pair = &pairs[idx];
        let ghost old_ks = ks;
        match decode_post(&pair.1) {
            Ok(post) => {
                proof {
                    assert(m.contains_key(pair.0@) && m[pair.0@] == pair.1@);
                    assert forall|i: int| 0 <= i < ks.len() implies ks[i] != pair.0@ by {
                        let w = choose|w: int| 0 <= w < idx && pairs@[w].0@ == ks[i];
                        assert(pairs@[w].0@ != pairs@[idx as int].0@);
                    }
                }
                let ghost prev = views_of(out@);
                out.push(post);
                proof {
                    assert(views_of(out@) =~= prev.push(post@));
                    ks = ks.push(pair.0@);
                    let last = ks.len() - 1;
                    assert(ks[last] == pairs@[idx as int].0@);
                    assert forall|i: int|
                        0 <= i < ks.len() implies m.contains_key(#[trigger] ks[i]) && parse_post(
                        m[ks[i]],
                    ) == Some(views_of(out@)[i]) by {
                        if i < last {
                            assert(ks[i] == old_ks[i]);
                            assert(views_of(out@)[i] == prev[i]);
                        } else {
                            assert(ks[i] == pair.0@);
                            assert(views_of(out@)[i] == post@);
                        }
                    }
                    assert forall|i: int| 0 <= i < ks.len() implies exists|j: int|
                        0 <= j < idx + 1 && pairs@[j].0@ == #[trigger] ks[i] by {
                        if i < last {
                            assert(ks[i] == old_ks[i]);
                            let w = choose|w: int| 0 <= w < idx && pairs@[w].0@ == old_ks[i];
                            assert(0 <= w < idx + 1 && pairs@[w].0@ == ks[i]);
                        } else {
                            assert(pairs@[idx as int].0@ == ks[i]);
                        }
                    }
                    assert forall|j: int|
                        0 <= j < idx + 1 && parse_post(#[trigger] pairs@[j].1@) is Some implies exists|i: int|
                        0 <= i < ks.len() && ks[i] == pairs@[j].0@ by {
                        if j < idx {
                            let w = choose|w: int| 0 <= w < old_ks.len() && old_ks[w] == pairs@[j].0@;
                            assert(ks[w] == pairs@[j].0@);
                        } else {
                            assert(ks[last] == pairs@[j].0@);
                        }
                    }
                }
            },
            Err(_) => {
                proof {
                    assert(parse_post(pairs@[idx as int].1@) is None);
                    assert forall|j: int|
                        0 <= j < idx + 1 && parse_post(#[trigger] pairs@[j].1@) is Some implies exists|i: int|
                        0 <= i < ks.len() && ks[i] == pairs@[j].0@ by {
                        assert(j < idx);
                        let w = choose|w: int| 0 <= w < old_ks.len() && old_ks[w] == pairs@[j].0@;
                        assert(ks[w] == pairs@[j].0@);
                    }
                }
            },
        }
        idx = idx + 1;
    }
    proof {
        assert forall|k: Seq<char>|
            #[trigger] m.contains_key(k) && parse_post(m[k]) is Some implies exists|i: int|
            0 <= i < ks.len() && ks[i] == k by {
            let j = choose|j: int| 0 <= j < pairs@.len() && pairs@[j].0@ == k;
            assert(pairs@[j].1@ == m[k]);
            assert(parse_post(pairs@[j].1@) is Some);
        }
        assert(listing_of(store_map(*store), views_of(out@), ks));
        assert(complete_listing(store_map(*store), views_of(out@)));
    }
    Ok(out)
}

/// The root posts among `s`, in their order of appearance.
pub open spec fn roots_of(s: Seq<PostView>) -> Seq<PostView> {
    s.filter(|p: PostView| p.parent_id == root_sentinel())
}

/// The replies to the root `root_id` among `s`, in their order of
/// appearance.
pub open spec fn replies_of(s: Seq<PostView>, root_id: Seq<char>) -> Seq<PostView> {
    s.filter(|p: PostView| p.parent_id == root_id)
}

/// Keeps only the root posts, in encounter order.
pub fn list_roots(posts: &Vec<Post>) -> (r: Vec<Post>)
    ensures
        views_of(r@) == roots_of(views_of(posts@)),
{
    proof {
        reveal_strlit("0");
        assert("0"@ =~= root_sentinel());
    }
    let mut out: Vec<Post> = Vec::new();
    let n = posts.len();
    for i in 0..n
        invariant
            n == posts@.len(),
            "0"@ == root_sentinel(),
            views_of(out@) == roots_of(views_of(posts@).take(i as int)),
    {
        let ghost prev = views_of(out@);
        let p = &posts[i];
        if str_eq(p.parent_id.as_str(), "0") {
            out.push(p.clone());
        }
        proof {
            reveal(Seq::filter);
            let t = views_of(posts@).take(i + 1);
            assert(t.drop_last() =~= views_of(posts@).take(i as int));
            assert(t.last() == posts@[i as int]@);
            if p@.parent_id == root_sentinel() {
                assert(views_of(out@) =~= prev.push(p@));
            }
            assert(views_of(out@) == roots_of(views_of(posts@).take(i + 1)));
        }
    }
    proof {
        assert(views_of(posts@).take(n as int) =~= views_of(posts@));
    }
    out
}

/// Counts the replies to `root_id`; recomputed on every render, never
/// cached.
pub fn count_replies(posts: &Vec<Post>, root_id: &str) -> (n: usize)
    ensures
        n == replies_of(views_of(posts@), root_id@).len(),
{
    let total = posts.len();
    let mut count: usize = 0;
    for i in 0..total
        invariant
            total == posts@.len(),
            count <= i,
            count == replies_of(views_of(posts@).take(i as int), root_id@).len(),
    {
        let p = &posts[i];
        if str_eq(p.parent_id.as_str(), root_id) {
            count = count + 1;
        }
        proof {
            reveal(Seq::filter);
            let t = views_of(posts@).take(i + 1);
            assert(t.drop_last() =~= views_of(posts@).take(i as int));
            assert(t.last() == posts@[i as int]@);
        }
    }
    proof {
        assert(views_of(posts@).take(total as int) =~= views_of(posts@));
    }
    count
}

/// A single thread as rendered: the root (when a post with that id was
/// found), then its replies in encounter order.
pub struct ThreadView {
    pub root: Option<Post>,
    pub replies: Vec<Post>,
}

/// The first post among `s` whose id is `root_id`.
pub open spec fn find_root(s: Seq<PostView>, root_id: Seq<char>) -> Option<PostView>
    decreases s.len(),
{
    if s.len() == 0 {
        None
    } else if s[0].id == root_id {
        Some(s[0])
    } else {
        find_root(s.drop_first(), root_id)
    }
}

/// Collects one thread out of the scanned posts: the first post whose id
/// is `root_id`, and every reply to it, in encounter order.
pub fn thread_posts(posts: &Vec<Post>, root_id: &str) -> (r: ThreadView)
    ensures
        views_of(r.replies@) == replies_of(views_of(posts@), root_id@),
        match r.root {
            Some(p) => find_root(views_of(posts@), root_id@) == Some(p@),
            None => find_root(views_of(posts@), root_id@) is None,
        },
{
    let ghost s = views_of(posts@);
    let n = posts.len();
    let mut root: Option<Post> = None;
    proof {
        assert(s.skip(0) =~= s);
    }
    for i in 0..n
        invariant
            n == posts@.len(),
            s == views_of(posts@),
            match root {
                Some(p) => find_root(s, root_id@) == Some(p@),
                None => find_root(s, root_id@) == find_root(s.skip(i as int), root_id@),
            },
    {
        let p = &posts[i];
        if root.is_none() {
            proof {
                assert(s.skip(i as int)[0] == s[i as int]);
                assert(s.skip(i as int).drop_first() =~= s.skip(i + 1));
            }
            if str_eq(p.id.as_str(), root_id) {
                root = Some(p.clone());
            }
        }
    }
    proof {
        if root is None {
            assert(s.skip(n as int) =~= Seq::<PostView>::empty());
        }
    }
    let mut replies: Vec<Post> = Vec::new();
    for i in 0..n
        invariant
            n == posts@.len(),
            views_of(replies@) == replies_of(views_of(posts@).take(i as int), root_id@),
    {
        let ghost prev = views_of(replies@);
        let p = &posts[i];
        if str_eq(p.parent_id.as_str(), root_id) {
            replies.push(p.clone());
        }
        proof {
            reveal(Seq::filter);
            let t = views_of(posts@).take(i + 1);
            assert(t.drop_last() =~= views_of(posts@).take(i as int));
            assert(t.last() == posts@[i as int]@);
            if p@.parent_id == root_id@ {
                assert(views_of(replies@) =~= prev.push(p@));
            }
        }
    }
    proof {
        assert(views_of(posts@).take(n as int) =~= views_of(posts@));
    }
    ThreadView { root, replies }
}

/// Ordered with the most recently active thread first.
pub open spec fn sorted_desc(s: Seq<PostView>) -> bool {
    forall|i: int, j: int| 0 <= i <= j < s.len() ==> s[i].last_activity >= s[j].last_activity
}

/// Inserting an element anywhere adds exactly it to the multiset.
proof fn lemma_insert_to_multiset(s: Seq<PostView>, j: int, x: PostView)
    requires
        0 <= j <= s.len(),
    ensures
        s.insert(j, x).to_multiset() == s.to_multiset().insert(x),
{
    broadcast use vstd::seq_lib::group_to_multiset_ensures;

    assert(s.insert(j, x) =~= s.take(j).push(x) + s.skip(j));
    assert(s =~= s.take(j) + s.skip(j));
    vstd::seq_lib::lemma_multiset_commutative(s.take(j).push(x), s.skip(j));
    vstd::seq_lib::lemma_multiset_commutative(s.take(j), s.skip(j));
    assert(s.take(j).push(x).to_multiset() =~= s.take(j).to_multiset().insert(x));
    assert(s.take(j).to_multiset().insert(x).add(s.skip(j).to_multiset()) =~= (s.take(
        j,
    ).to_multiset().add(s.skip(j).to_multiset())).insert(x));
}

/// Sorts the posts by their activity timestamp, most recent first, by
/// insertion; the same posts come out that went in.  How equal timestamps
/// are ordered is left open.
#[verifier::rlimit(100)]
pub fn sort_by_activity(posts: &mut Vec<Post>)
    ensures
        sorted_desc(views_of(final(posts)@)),
        views_of(final(posts)@).to_multiset() == views_of(old(posts)@).to_multiset(),
        final(posts)@.len() == old(posts)@.len(),
{
    broadcast use vstd::seq_lib::group_to_multiset_ensures;

    let n = posts.len();
    if n <= 1 {
        return;
    }
    let mut i: usize = 1;
    while i < n
        invariant
            1 <= i <= n,
            n == posts@.len(),
            sorted_desc(views_of(posts@).take(i as int)),
            views_of(posts@).to_multiset() == views_of(old(posts)@).to_multiset(),
        decreases n - i,
    {
        let ghost v0 = views_of(posts@);
        let x_la = posts[i].last_activity;
        let mut j: usize = 0;
        while j < i && posts[j].last_activity >= x_la
            invariant
                0 <= j <= i < n,
                n == posts@.len(),
                v0 == views_of(posts@),
                forall|k: int| 0 <= k < j ==> v0[k].last_activity >= x_la,
            decreases i - j,
        {
            j = j + 1;
        }
        let x = posts.remove(i);
        posts.insert(j, x);
        proof {
            let w = views_of(posts@);
            assert(w =~= v0.take(j as int) + seq![v0[i as int]] + v0.subrange(j as int, i as int)
                + v0.subrange(i as int + 1, n as int));
            assert forall|p: int, q: int|
                0 <= p <= q < i implies v0[p].last_activity >= v0[q].last_activity by {
                assert(v0.take(i as int)[p] == v0[p]);
                assert(v0.take(i as int)[q] == v0[q]);
            }
            assert(x_la == v0[i as int].last_activity);
            assert forall|a: int, b: int|
                0 <= a <= b < i + 1 implies w[a].last_activity >= w[b].last_activity by {
                let ja = j as int;
                let ia = i as int;
                if a < ja {
                    assert(w[a] == v0[a]);
                }
                if b < ja {
                    assert(w[b] == v0[b]);
                }
                if a == ja {
                    assert(w[a] == v0[ia]);
                }
                if b == ja {
                    assert(w[b] == v0[ia]);
                }
                if ja < a <= ia {
                    assert(w[a] == v0[a - 1]);
                }
                if ja < b <= ia {
                    assert(w[b] == v0[b - 1]);
                }
                assert(ja < ia ==> v0[ja].last_activity < x_la);
            }
            assert(sorted_desc(w.take(i as int + 1))) by {
                assert(forall|a: int|
                    0 <= a < i + 1 ==> w.take(i as int + 1)[a] == w[a]);
            }
            assert(w.to_multiset() == v0.to_multiset()) by {
                v0.to_multiset_ensures();
                assert(v0.remove(i as int).to_multiset() =~= v0.to_multiset().remove(
                    v0[i as int],
                ));
                assert(w =~= v0.remove(i as int).insert(j as int, v0[i as int]));
                lemma_insert_to_multiset(v0.remove(i as int), j as int, v0[i as int]);
                assert(v0.to_multiset().contains(v0[i as int]));
                assert(v0.to_multiset().remove(v0[i as int]).insert(v0[i as int])
                    =~= v0.to_multiset());
            }
        }
        i = i + 1;
    }
    proof {
        assert(views_of(posts@).take(n as int) =~= views_of(posts@));
    }
}

/// Page numbers below one are clamped to the first page.
pub open spec fn clamp_page(number: int) -> int {
    if number < 1 {
        1
    } else {
        number
    }
}

/// The slice of the ordered roots that one page shows.
pub open spec fn page_of(s: Seq<PostView>, number: int, size: int) -> Seq<PostView>
    recommends
        size >= 1,
{
    let off = (clamp_page(number) - 1) * size;
    if off >= s.len() {
        Seq::empty()
    } else if off + size > s.len() {
        s.subrange(off, s.len() as int)
    } else {
        s.subrange(off, off + size)
    }
}

/// A page never holds more posts than the page size.
pub proof fn lemma_page_len(s: Seq<PostView>, number: int, size: int)
    requires
        size >= 1,
    ensures
        page_of(s, number, size).len() <= size,
{
}

/// One page of the listing: its posts, and whether pages follow or
/// precede it.
pub struct Page {
    pub posts: Vec<Post>,
    pub has_next: bool,
    pub has_prev: bool,
}

/// Slices one page out of the sorted roots.  `number` is one-based and
/// clamped to one; there is a next page exactly when further roots follow
/// the slice, a previous one exactly when the clamped number is above one.
pub fn page_slice(sorted: &Vec<Post>, number: usize, size: usize) -> (r: Page)
    requires
        size >= 1,
    ensures
        views_of(r.posts@) == page_of(views_of(sorted@), number as int, size as int),
        r.has_next == (clamp_page(number as int) * size < views_of(sorted@).len()),
        r.has_prev == (clamp_page(number as int) > 1),
{
    let n: usize = if number < 1 {
        1
    } else {
        number
    };
    let total = sorted.len();
    let max_full: usize = total / size;
    if n - 1 > max_full {
        proof {
            assert((n - 1) * size >= (max_full + 1) * size) by (nonlinear_arith)
                requires
                    n - 1 >= max_full + 1,
                    size >= 1,
            ;
            assert((max_full + 1) * size > total) by (nonlinear_arith)
                requires
                    max_full == total / size,
                    size >= 1,
                    total >= 0,
            ;
            assert(n * size >= (n - 1) * size) by (nonlinear_arith)
                requires
                    size >= 1,
                    n >= 1,
            ;
            assert(clamp_page(number as int) == n as int);
            assert(views_of(sorted@).len() == total);
            assert(page_of(views_of(sorted@), number as int, size as int)
                =~= Seq::<PostView>::empty());
        }
        return Page { posts: Vec::new(), has_next: false, has_prev: n > 1 };
    }
    proof {
        assert((n - 1) * size <= max_full * size) by (nonlinear_arith)
            requires
                n - 1 <= max_full,
                size >= 1,
        ;
        assert(max_full * size <= total) by (nonlinear_arith)
            requires
                max_full == total / size,
                size >= 1,
                total >= 0,
        ;
    }
    let off: usize = (n - 1) * size;
    let end: usize = if size > total - off {
        total
    } else {
        off + size
    };
    let mut out: Vec<Post> = Vec::new();
    let mut k: usize = off;
    while k < end
        invariant
            off <= k <= end <= total,
            total == sorted@.len(),
            views_of(out@) == views_of(sorted@).subrange(off as int, k as int),
        decreases end - k,
    {
        let ghost prev = views_of(out@);
        out.push(sorted[k].clone());
        proof {
            assert(views_of(out@) =~= prev.push(sorted@[k as int]@));
            assert(views_of(sorted@).subrange(off as int, k as int + 1) =~= prev.push(
                sorted@[k as int]@,
            ));
        }
        k = k + 1;
    }
    proof {
        let s = views_of(sorted@);
        assert(clamp_page(number as int) == n as int);
        assert(n as int * size as int == off as int + size as int) by (nonlinear_arith)
            requires
                n >= 1,
                off == (n - 1) * size,
        ;
        if off >= total {
            assert(off == total);
            assert(views_of(out@) =~= page_of(s, number as int, size as int));
        } else if off + size > total {
            assert(end == total);
            assert(views_of(out@) =~= page_of(s, number as int, size as int));
        } else {
            assert(end == off + size);
            assert(views_of(out@) =~= page_of(s, number as int, size as int));
        }
    }
    Page { posts: out, has_next: end < total, has_prev: n > 1 }
}

/// One row of the outbound listing: what the page shows for one root
/// post.  The message is clipped for the listing view only; the colour
/// is the deterministic display colour of the id.
pub struct ListingEntry {
    pub id: String,
    pub title: String,
    pub message: String,
    pub truncated: bool,
    pub attachment: Option<String>,
    pub reply_count: usize,
    pub color: String,
}

/// Builds the listing row for `post`, counting its replies among all
/// scanned posts.
pub fn listing_entry(posts: &Vec<Post>, post: &Post) -> (r: ListingEntry)
    ensures
        r.id@ == post@.id,
        r.title@ == post@.title,
        r.message@ == if post@.message.len() <= LISTING_CLIP_CHARS {
            post@.message
        } else {
            post@.message.take(LISTING_CLIP_CHARS as int)
        },
        r.truncated == (post@.message.len() > LISTING_CLIP_CHARS),
        match r.attachment {
            Some(a) => post@.attachment == Some(a@),
            None => post@.attachment is None,
        },
        r.reply_count == replies_of(views_of(posts@), post@.id).len(),
        r.color@ == color_of(DefaultHasher::spec_finish(seq![encode_utf8(post@.id)])),
{
    let (message, truncated) = clip_chars(post.message.as_str(), LISTING_CLIP_CHARS);
    ListingEntry {
        id: post.id.clone(),
        title: post.title.clone(),
        message,
        truncated,
        attachment: match &post.attachment {
            Some(a) => Some(a.clone()),
            None => None,
        },
        reply_count: count_replies(posts, post.id.as_str()),
        color: generate_color_from_id(post.id.as_str()),
    }
}

/// Pages one to `k`, concatenated in order.
pub open spec fn concat_pages(s: Seq<PostView>, size: int, k: int) -> Seq<PostView>
    decreases k,
{
    if k <= 0 {
        Seq::empty()
    } else {
        concat_pages(s, size, k - 1) + page_of(s, k, size)
    }
}

/// The first `k` pages together are exactly the first `k * size` posts.
proof fn lemma_pages_prefix(s: Seq<PostView>, size: int, k: int)
    requires
        size >= 1,
        k >= 0,
    ensures
        concat_pages(s, size, k) == s.take(
            if k * size <= s.len() {
                k * size
            } else {
                s.len() as int
            },
        ),
    decreases k,
{
    if k == 0 {
        assert(concat_pages(s, size, 0) =~= s.take(0));
    } else {
        lemma_pages_prefix(s, size, k - 1);
        assert(k * size == (k - 1) * size + size) by (nonlinear_arith);
        assert((k - 1) * size >= 0) by (nonlinear_arith)
            requires
                k >= 1,
                size >= 1,
        ;
        let off = (k - 1) * size;
        if off >= s.len() {
            assert(page_of(s, k, size) =~= Seq::<PostView>::empty());
            assert(concat_pages(s, size, k) =~= s.take(s.len() as int));
        } else if off + size > s.len() {
            assert(concat_pages(s, size, k) =~= s.take(off) + s.subrange(off, s.len() as int));
            assert(s.take(off) + s.subrange(off, s.len() as int) =~= s.take(s.len() as int));
        } else {
            assert(concat_pages(s, size, k) =~= s.take(off) + s.subrange(off, off + size));
            assert(s.take(off) + s.subrange(off, off + size) =~= s.take(off + size));
        }
    }
}

/// Walking the pages from the first to the last reproduces the whole
/// ordered listing: nothing is repeated, nothing is left out.
pub proof fn lemma_pages_cover(s: Seq<PostView>, size: int, k: int)
    requires
        size >= 1,
        k >= 0,
        k * size >= s.len(),
    ensures
        concat_pages(s, size, k) == s,
{
    lemma_pages_prefix(s, size, k);
    if k * size <= s.len() {
        assert(s.take(s.len() as int) =~= s);
        assert(concat_pages(s, size, k) =~= s);
    } else {
        assert(s.take(s.len() as int) =~= s);
    }
}

/// There is a next page exactly when the page number is below the number
/// of pages, rounded up.
pub proof fn lemma_has_next_ceil(total: int, number: int, size: int)
    requires
        size >= 1,
        total >= 0,
        number >= 1,
    ensures
        number * size < total <==> number < (total + size - 1) / size,
{
    let d = (total + size - 1) / size;
    vstd::arithmetic::div_mod::lemma_fundamental_div_mod(total + size - 1, size);
    let r = (total + size - 1) % size;
    vstd::arithmetic::div_mod::lemma_mod_bound(total + size - 1, size);
    assert(total + size - 1 == size * d + r);
    assert(0 <= r < size);
    if number < d {
        assert(number * size <= (d - 1) * size) by (nonlinear_arith)
            requires
                number <= d - 1,
                size >= 1,
        ;
        assert((d - 1) * size == size * d - size) by (nonlinear_arith);
        assert(size * d == total + size - 1 - r);
        assert(number * size <= total - 1 - r);
    } else {
        assert(number * size >= d * size) by (nonlinear_arith)
            requires
                number >= d,
                size >= 1,
        ;
        assert(d * size == size * d) by (nonlinear_arith);
        assert(size * d == total + size - 1 - r);
        assert(size * d >= total);
    }
}

} // verus!
