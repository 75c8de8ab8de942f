use msgboard::attach::{accept_chunk, plan_attachment, MAX_UPLOAD_BYTES};
use msgboard::board::{lookup_post, submit, AttachmentOutcome, SubmitError};
use msgboard::codec::{decode_post, encode_post};
use msgboard::color::generate_color_from_id;
use msgboard::listing::{count_replies, list_roots, listing_entry, load_posts, page_slice,
    sort_by_activity, thread_posts};
use msgboard::post::Post;
use msgboard::store::{put_record, Store};
use msgboard::text::{clip_chars, escape_html, has_content, str_eq};

fn fresh_store() -> Store {
    Store::temp().expect("temporary store")
}

fn post(id: &str, parent: &str, la: u64) -> Post {
    Post {
        id: id.to_string(),
        parent_id: parent.to_string(),
        title: "t".to_string(),
        message: "m".to_string(),
        attachment: None,
        last_activity: la,
    }
}

#[test]
fn submit_root_then_lookup() {
    let mut store = fresh_store();
    let id = submit(
        &mut store,
        "Hi <b>",
        "hello & bye",
        "0",
        AttachmentOutcome::NoAttachment,
        1000,
    )
    .expect("submit succeeds");
    let found = lookup_post(&store, &id).expect("store works").expect("post exists");
    assert_eq!(found.id, id);
    assert_eq!(found.parent_id, "0");
    assert_eq!(found.title, "Hi &lt;b&gt;");
    assert_eq!(found.message, "hello &amp; bye");
    assert!(found.attachment.is_none());
    assert_eq!(found.last_activity, 1000);
}

#[test]
fn empty_title_rejected() {
    let mut store = fresh_store();
    let r = submit(&mut store, "   ", "body", "0", AttachmentOutcome::NoAttachment, 1);
    assert!(matches!(r, Err(SubmitError::EmptyTitle)));
    let posts = load_posts(&store).expect("store works");
    assert_eq!(posts.len(), 0);
}

#[test]
fn empty_message_rejected() {
    let mut store = fresh_store();
    let r = submit(&mut store, "title", " \t\n", "0", AttachmentOutcome::NoAttachment, 1);
    assert!(matches!(r, Err(SubmitError::EmptyMessage)));
    let posts = load_posts(&store).expect("store works");
    assert_eq!(posts.len(), 0);
}

#[test]
fn unicode_whitespace_counts_as_empty() {
    let mut store = fresh_store();
    let r = submit(
        &mut store,
        "\u{00A0}\u{3000}\u{2009}",
        "body",
        "0",
        AttachmentOutcome::NoAttachment,
        1,
    );
    assert!(matches!(r, Err(SubmitError::EmptyTitle)));
}

#[test]
fn title_length_bound() {
    let mut store = fresh_store();
    let exact = "a".repeat(30);
    assert!(submit(&mut store, &exact, "body", "0", AttachmentOutcome::NoAttachment, 1).is_ok());
    let long = "a".repeat(31);
    let r = submit(&mut store, &long, "body", "0", AttachmentOutcome::NoAttachment, 1);
    assert!(matches!(r, Err(SubmitError::TitleTooLong)));
}

#[test]
fn message_length_bound() {
    let mut store = fresh_store();
    let long = "a".repeat(50001);
    let r = submit(&mut store, "title", &long, "0", AttachmentOutcome::NoAttachment, 1);
    assert!(matches!(r, Err(SubmitError::MessageTooLong)));
    let posts = load_posts(&store).expect("store works");
    assert_eq!(posts.len(), 0);
}

#[test]
fn reply_bumps_parent_and_counts() {
    let mut store = fresh_store();
    let a = submit(&mut store, "Hi", "hello", "0", AttachmentOutcome::NoAttachment, 1000)
        .expect("root stored");
    let before = lookup_post(&store, &a).unwrap().unwrap().last_activity;
    let b = submit(&mut store, "Re", "answer", &a, AttachmentOutcome::NoAttachment, 2000)
        .expect("reply stored");
    let after = lookup_post(&store, &a).unwrap().unwrap().last_activity;
    assert!(after >= before);
    assert_eq!(after, 2000);
    let posts = load_posts(&store).expect("store works");
    assert_eq!(count_replies(&posts, &a), 1);
    let thread = thread_posts(&posts, &a);
    assert_eq!(thread.root.as_ref().map(|p| p.id.clone()), Some(a.clone()));
    assert_eq!(thread.replies.len(), 1);
    assert_eq!(thread.replies[0].id, b);
}

#[test]
fn clock_going_backwards_never_lowers_activity() {
    let mut store = fresh_store();
    let a = submit(&mut store, "Hi", "hello", "0", AttachmentOutcome::NoAttachment, 5000)
        .expect("root stored");
    submit(&mut store, "Re", "late clock", &a, AttachmentOutcome::NoAttachment, 4000)
        .expect("reply stored");
    let la = lookup_post(&store, &a).unwrap().unwrap().last_activity;
    assert_eq!(la, 5000);
}

#[test]
fn orphan_reply_is_stored() {
    let mut store = fresh_store();
    let r = submit(&mut store, "Re", "to nobody", "zzzzzz", AttachmentOutcome::NoAttachment, 7);
    assert!(r.is_ok());
    let posts = load_posts(&store).expect("store works");
    assert_eq!(posts.len(), 1);
    assert_eq!(posts[0].parent_id, "zzzzzz");
}

#[test]
fn oversize_attachment_aborts_submission() {
    let mut store = fresh_store();
    let r = submit(&mut store, "title", "body", "0", AttachmentOutcome::Oversize, 1);
    assert!(matches!(r, Err(SubmitError::AttachmentTooLarge)));
    let posts = load_posts(&store).expect("store works");
    assert_eq!(posts.len(), 0);
}

#[test]
fn size_cap_while_streaming() {
    assert_eq!(accept_chunk(0, MAX_UPLOAD_BYTES), Some(MAX_UPLOAD_BYTES));
    assert_eq!(accept_chunk(1, MAX_UPLOAD_BYTES), None);
    assert_eq!(accept_chunk(10, 20), Some(30));
    let mut total = 0u64;
    for _ in 0..3 {
        total = accept_chunk(total, 10 * 1024 * 1024).unwrap_or(u64::MAX);
    }
    assert_eq!(total, u64::MAX);
}

#[test]
fn corrupt_record_is_skipped() {
    let mut store = fresh_store();
    let garbage: Vec<u8> = vec![9, 9, 9, 1, 2, 3];
    put_record(&mut store, "broken", &garbage).expect("raw write");
    let id = submit(&mut store, "ok", "fine", "0", AttachmentOutcome::NoAttachment, 1)
        .expect("submit succeeds");
    let posts = load_posts(&store).expect("scan still succeeds");
    assert_eq!(posts.len(), 1);
    assert_eq!(posts[0].id, id);
}

#[test]
fn pagination_bounds_and_concatenation() {
    let mut posts = vec![post("a", "0", 1), post("b", "0", 3), post("c", "0", 2)];
    sort_by_activity(&mut posts);
    assert_eq!(posts[0].last_activity, 3);
    assert_eq!(posts[1].last_activity, 2);
    assert_eq!(posts[2].last_activity, 1);
    let p1 = page_slice(&posts, 1, 2);
    assert_eq!(p1.posts.len(), 2);
    assert!(p1.has_next);
    assert!(!p1.has_prev);
    assert_eq!(p1.posts[0].id, "b");
    assert_eq!(p1.posts[1].id, "c");
    let p2 = page_slice(&posts, 2, 2);
    assert_eq!(p2.posts.len(), 1);
    assert!(!p2.has_next);
    assert!(p2.has_prev);
    assert_eq!(p2.posts[0].id, "a");
    let all: Vec<String> =
        p1.posts.iter().chain(p2.posts.iter()).map(|p| p.id.clone()).collect();
    let sorted_ids: Vec<String> = posts.iter().map(|p| p.id.clone()).collect();
    assert_eq!(all, sorted_ids);
    let clamped = page_slice(&posts, 0, 2);
    assert_eq!(clamped.posts.len(), 2);
    assert!(!clamped.has_prev);
    let beyond = page_slice(&posts, 9, 2);
    assert_eq!(beyond.posts.len(), 0);
    assert!(!beyond.has_next);
    assert!(beyond.has_prev);
}

#[test]
fn zip_attachment_is_dropped() {
    assert!(plan_attachment("archive.zip", "application/zip").is_none());
    // the declared type decides, not the file name's extension
    assert!(plan_attachment("x.png", "application/zip").is_none());
    let mut store = fresh_store();
    let id = submit(&mut store, "title", "body", "0", AttachmentOutcome::NoAttachment, 1)
        .expect("post still created");
    let found = lookup_post(&store, &id).unwrap().unwrap();
    assert!(found.attachment.is_none());
}

#[test]
fn allowed_attachment_gets_stored_name() {
    let name = plan_attachment("clip.mp4", "video/mp4").expect("mp4 is allowed");
    assert_eq!(name.len(), 6 + 1 + "clip.mp4".len());
    assert_eq!(&name[6..7], "-");
    assert!(name.ends_with("clip.mp4"));
}

#[test]
fn stored_name_strips_path_separators() {
    let name = plan_attachment("evil/../x.png", "image/png").expect("png is allowed");
    assert!(!name[7..].contains('/'));
    assert!(!name[7..].contains('\\'));
}

#[test]
fn stored_names_do_not_repeat() {
    let a = plan_attachment("x.gif", "image/gif").expect("gif is allowed");
    let b = plan_attachment("x.gif", "image/gif").expect("gif is allowed");
    assert_ne!(a, b);
}

#[test]
fn record_round_trip() {
    let p = Post {
        id: "abc123".to_string(),
        parent_id: "0".to_string(),
        title: "Grüße".to_string(),
        message: "body text".to_string(),
        attachment: Some("tok-pic.png".to_string()),
        last_activity: 123456789,
    };
    let bytes = encode_post(&p);
    let q = decode_post(&bytes).expect("round trip");
    assert_eq!(q.id, p.id);
    assert_eq!(q.parent_id, p.parent_id);
    assert_eq!(q.title, p.title);
    assert_eq!(q.message, p.message);
    assert_eq!(q.attachment, p.attachment);
    assert_eq!(q.last_activity, p.last_activity);
}

#[test]
fn truncated_record_fails_to_decode() {
    let p = post("abc123", "0", 7);
    let bytes = encode_post(&p);
    assert!(decode_post(&bytes[..bytes.len() - 1].to_vec()).is_err());
    assert!(decode_post(&Vec::new()).is_err());
    let mut extended = bytes.clone();
    extended.push(0);
    assert!(decode_post(&extended).is_err());
}

#[test]
fn escaping_is_exact() {
    assert_eq!(
        escape_html("<a href=\"x\">&'"),
        "&lt;a href=&quot;x&quot;&gt;&amp;&#39;"
    );
    assert_eq!(escape_html("plain"), "plain");
}

#[test]
fn clipping_for_the_listing() {
    let (s, cut) = clip_chars("hello", 3);
    assert_eq!(s, "hel");
    assert!(cut);
    let (s, cut) = clip_chars("hi", 5);
    assert_eq!(s, "hi");
    assert!(!cut);
}

#[test]
fn colors_are_stable_and_well_formed() {
    let c1 = generate_color_from_id("abc123");
    let c2 = generate_color_from_id("abc123");
    assert_eq!(c1, c2);
    assert_eq!(c1.len(), 7);
    assert!(c1.starts_with('#'));
    assert!(c1[1..].chars().all(|c| c.is_ascii_hexdigit()));
}

#[test]
fn roots_are_filtered_from_the_scan() {
    let posts = vec![post("a", "0", 1), post("b", "a", 2), post("c", "0", 3)];
    let roots = list_roots(&posts);
    assert_eq!(roots.len(), 2);
    assert_eq!(roots[0].id, "a");
    assert_eq!(roots[1].id, "c");
}

#[test]
fn listing_entry_combines_row_data() {
    let posts = vec![post("a", "0", 1), post("b", "a", 2), post("c", "a", 3)];
    let e = listing_entry(&posts, &posts[0]);
    assert_eq!(e.id, "a");
    assert_eq!(e.title, "t");
    assert_eq!(e.message, "m");
    assert!(!e.truncated);
    assert_eq!(e.reply_count, 2);
    assert_eq!(e.color, generate_color_from_id("a"));
    let long = Post {
        message: "x".repeat(2701),
        ..post("d", "0", 1)
    };
    let e2 = listing_entry(&posts, &long);
    assert!(e2.truncated);
    assert_eq!(e2.message.len(), 2700);
    assert_eq!(e2.reply_count, 0);
}

#[test]
fn text_helpers() {
    assert!(str_eq("abc", "abc"));
    assert!(!str_eq("abc", "abd"));
    assert!(!has_content("  \t "));
    assert!(has_content(" a "));
    assert!(!has_content(""));
}
