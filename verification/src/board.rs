use vstd::prelude::*;
use crate::attach::random_token;
use crate::codec::{decode_post, encode_post, lemma_parse_post_bytes, parse_post, post_bytes,
    view_fits};
use crate::post::{root_sentinel, Post, PostView};
use crate::store::{store_map, Store, StoreError};
use crate::text::{all_space, escape_html, escape_text, has_content, str_eq};
use vstd::string::StrSliceExecFns;

verus! {

/// The longest title, in characters.
pub const TITLE_MAX_CHARS: usize = 30;

/// The longest message body, in characters.
pub const MESSAGE_MAX_CHARS: usize = 50000;

/// Why a submission was refused.  The first four are the caller's to
/// correct; `StoreFailure` is a store fault (or an exhausted search for a
/// fresh id), fatal for this submission only.
#[derive(Clone, Copy, PartialEq, Eq, Structural, Debug)]
pub enum SubmitError {
    EmptyTitle,
    EmptyMessage,
    TitleTooLong,
    MessageTooLong,
    AttachmentTooLarge,
    StoreFailure,
}

/// What became of the uploaded file by the time a submission is made:
/// there was none (or it was dropped for its type), it was stored under a
/// name, or it passed the size cap and the whole submission must fail.
pub enum AttachmentOutcome {
    NoAttachment,
    Stored(String),
    Oversize,
}

/// The attachment reference a submission will carry.
pub open spec fn outcome_ref(o: AttachmentOutcome) -> Option<Seq<char>> {
    match o {
        AttachmentOutcome::Stored(n) => Some(n@),
        _ => None,
    }
}

/// The validation verdict on a candidate title and message: both must
/// hold something besides white space and stay within the length bounds.
pub open spec fn validation_of(title: Seq<char>, message: Seq<char>) -> Option<SubmitError> {
    if all_space(title) {
        Some(SubmitError::EmptyTitle)
    } else if all_space(message) {
        Some(SubmitError::EmptyMessage)
    } else if title.len() > TITLE_MAX_CHARS {
        Some(SubmitError::TitleTooLong)
    } else if message.len() > MESSAGE_MAX_CHARS {
        Some(SubmitError::MessageTooLong)
    } else {
        None
    }
}

/// The post a successful submission builds: text fields escaped, the
/// activity timestamp set to the submission time.
pub open spec fn new_post_view(
    id: Seq<char>,
    parent_id: Seq<char>,
    title: Seq<char>,
    message: Seq<char>,
    attachment: Option<Seq<char>>,
    now: u64,
) -> PostView {
    PostView {
        id,
        parent_id,
        title: escape_text(title),
        message: escape_text(message),
        attachment,
        last_activity: now,
    }
}

/// A root with its activity timestamp bumped by a reply at `now`: only a
/// newer timestamp overwrites, so the field never decreases.
pub open spec fn bumped(p: PostView, now: u64) -> PostView {
    PostView {
        id: p.id,
        parent_id: p.parent_id,
        title: p.title,
        message: p.message,
        attachment: p.attachment,
        last_activity: if p.last_activity >= now {
            p.last_activity
        } else {
            now
        },
    }
}

/// What a submission interrupted by a store fault can have left behind:
/// nothing, the new post alone under some fresh id, or the whole effect —
/// never anything else.  Each single-key write is atomic, so no other
/// shape is reachable.
pub open spec fn partial_submit_effect(
    m_old: Map<Seq<char>, Seq<u8>>,
    m_new: Map<Seq<char>, Seq<u8>>,
    parent_id: Seq<char>,
    title: Seq<char>,
    message: Seq<char>,
    attachment: Option<Seq<char>>,
    now: u64,
) -> bool {
    ||| m_new == m_old
    ||| exists|id: Seq<char>|
        {
            &&& id.len() == 6
            &&& !m_old.contains_key(id)
            &&& (m_new == m_old.insert(
                id,
                post_bytes(new_post_view(id, parent_id, title, message, attachment, now)),
            ) || m_new == submit_effect(m_old, id, parent_id, title, message, attachment, now))
        }
}

/// What a successful submission does to the store: the new post is written
/// under the fresh `id`; when it is a reply whose parent exists and can be
/// read back, the parent is rewritten with its activity bumped.
pub open spec fn submit_effect(
    m: Map<Seq<char>, Seq<u8>>,
    id: Seq<char>,
    parent_id: Seq<char>,
    title: Seq<char>,
    message: Seq<char>,
    attachment: Option<Seq<char>>,
    now: u64,
) -> Map<Seq<char>, Seq<u8>> {
    let p = new_post_view(id, parent_id, title, message, attachment, now);
    let m1 = m.insert(id, post_bytes(p));
    if parent_id != root_sentinel() && m.contains_key(parent_id) {
        match parse_post(m[parent_id]) {
            Some(pp) => m1.insert(parent_id, post_bytes(bumped(pp, now))),
            None => m1,
        }
    } else {
        m1
    }
}

/// The keys of the readable records that are replies to `root_id`.
pub open spec fn reply_key_set(m: Map<Seq<char>, Seq<u8>>, root_id: Seq<char>) -> Set<Seq<char>> {
    m.dom().filter(
        |k: Seq<char>|
            parse_post(m[k]) is Some && parse_post(m[k])->0.parent_id == root_id,
    )
}

/// How many readable records are replies to `root_id`.
pub open spec fn reply_count_of(m: Map<Seq<char>, Seq<u8>>, root_id: Seq<char>) -> nat {
    reply_key_set(m, root_id).len()
}

/// Looking up a freshly submitted post yields exactly the submitted
/// fields: the escaped title and message, the given parent, the given
/// attachment reference, and the submission time.
pub proof fn lemma_submit_then_lookup(
    m: Map<Seq<char>, Seq<u8>>,
    id: Seq<char>,
    parent_id: Seq<char>,
    title: Seq<char>,
    message: Seq<char>,
    attachment: Option<Seq<char>>,
    now: u64,
)
    requires
        id != parent_id,
        view_fits(new_post_view(id, parent_id, title, message, attachment, now)),
    ensures
        ({
            let m2 = submit_effect(m, id, parent_id, title, message, attachment, now);
            &&& m2.contains_key(id)
            &&& parse_post(m2[id]) == Some(
                new_post_view(id, parent_id, title, message, attachment, now),
            )
        }),
{
    let p = new_post_view(id, parent_id, title, message, attachment, now);
    lemma_parse_post_bytes(p);
    let m2 = submit_effect(m, id, parent_id, title, message, attachment, now);
    assert(m2[id] == post_bytes(p));
}

/// A reply to an existing, readable root rewrites only that root's
/// activity timestamp, to a value no smaller than before (and no smaller
/// than the reply's own time), and raises the root's reply count by
/// exactly one.
pub proof fn lemma_reply_bump(
    m: Map<Seq<char>, Seq<u8>>,
    id: Seq<char>,
    parent_id: Seq<char>,
    title: Seq<char>,
    message: Seq<char>,
    attachment: Option<Seq<char>>,
    now: u64,
)
    requires
        parent_id != root_sentinel(),
        m.contains_key(parent_id),
        !m.contains_key(id),
        m.dom().finite(),
        parse_post(m[parent_id]) is Some,
        view_fits(parse_post(m[parent_id])->0),
        view_fits(new_post_view(id, parent_id, title, message, attachment, now)),
    ensures
        ({
            let m2 = submit_effect(m, id, parent_id, title, message, attachment, now);
            let before = parse_post(m[parent_id])->0;
            &&& parse_post(m2[parent_id]) == Some(bumped(before, now))
            &&& bumped(before, now).last_activity >= before.last_activity
            &&& bumped(before, now).last_activity >= now
            &&& bumped(before, now).id == before.id
            &&& bumped(before, now).parent_id == before.parent_id
            &&& bumped(before, now).title == before.title
            &&& bumped(before, now).message == before.message
            &&& reply_count_of(m2, parent_id) == reply_count_of(m, parent_id) + 1
        }),
{
    let p = new_post_view(id, parent_id, title, message, attachment, now);
    let before = parse_post(m[parent_id])->0;
    let bp = bumped(before, now);
    lemma_parse_post_bytes(p);
    assert(view_fits(bp));
    lemma_parse_post_bytes(bp);
    let m2 = submit_effect(m, id, parent_id, title, message, attachment, now);
    assert(m2 == m.insert(id, post_bytes(p)).insert(parent_id, post_bytes(bp)));
    assert(m2[parent_id] == post_bytes(bp));
    assert(m2[id] == post_bytes(p));
    let s1 = reply_key_set(m, parent_id);
    let s2 = reply_key_set(m2, parent_id);
    assert(s2 =~= s1.insert(id)) by {
        assert forall|k: Seq<char>| s2.contains(k) <==> s1.insert(id).contains(k) by {
            if k == id {
                assert(s2.contains(k));
            } else if k == parent_id {
                assert(bp.parent_id == before.parent_id);
            } else {
                if m2.contains_key(k) {
                    assert(m2[k] == m[k]);
                }
            }
        }
    }
    m.dom().lemma_len_filter(
        |k: Seq<char>|
            parse_post(m[k]) is Some && parse_post(m[k])->0.parent_id == parent_id,
    );
    assert(s1.finite());
    assert(!s1.contains(id));
    vstd::set::axiom_set_insert_len(s1, id);
}

/// Draws random six-character ids until one is not yet a key of the
/// store; gives up (as a store failure would) after a bounded number of
/// collisions, which chance makes all but impossible.
fn fresh_id(store: &Store) -> (r: Result<String, StoreError>)
    ensures
        r is Ok ==> (r->Ok_0)@.len() == 6 && !store_map(*store).contains_key((r->Ok_0)@),
{
    let mut attempts: usize = 0;
    while attempts < 32
        invariant
            attempts <= 32,
        decreases 32 - attempts,
    {
        let tok = random_token();
        match store.get_raw(tok.as_str()) {
            Ok(None) => {
                return Ok(tok);
            },
            Ok(Some(_)) => {},
            Err(e) => {
                return Err(e);
            },
        }
        attempts = attempts + 1;
    }
    Err(StoreError)
}

/// Reads the post stored under `id`: the decoded record when it exists
/// and can be read back, nothing when the key is absent or the record is
/// unreadable.
pub fn lookup_post(store: &Store, id: &str) -> (r: Result<Option<Post>, StoreError>)
    ensures
        match r {
            Ok(Some(p)) => store_map(*store).contains_key(id@) && parse_post(
                store_map(*store)[id@],
            ) == Some(p@),
            Ok(None) => !store_map(*store).contains_key(id@) || parse_post(
                store_map(*store)[id@],
            ) is None,
            Err(_) => true,
        },
{
    match store.get_raw(id) {
        Ok(Some(bytes)) => match decode_post(&bytes) {
            Ok(p) => Ok(Some(p)),
            Err(_) => Ok(None),
        },
        Ok(None) => Ok(None),
        Err(e) => Err(e),
    }
}

/// Creates a post (a root when `parent_id` is `"0"`, otherwise a reply to
/// that root).  Validates the inputs, escapes the text, writes the post
/// under a fresh id, and bumps the parent's activity when it exists; a
/// reply whose parent is absent is still stored.  Nothing is written
/// unless validation and the attachment size cap pass.
pub fn submit(
    store: &mut Store,
    title: &str,
    message: &str,
    parent_id: &str,
    attachment: AttachmentOutcome,
    now: u64,
) -> (r: Result<String, SubmitError>)
    ensures
        validation_of(title@, message@) is Some ==> r is Err && r->Err_0 == validation_of(
            title@,
            message@,
        )->0 && store_map(*final(store)) == store_map(*old(store)),
        validation_of(title@, message@) is None && attachment is Oversize ==> r is Err
            && r->Err_0 == SubmitError::AttachmentTooLarge && store_map(*final(store))
            == store_map(*old(store)),
        r is Ok ==> validation_of(title@, message@) is None && !(attachment is Oversize) && (
        r->Ok_0)@.len() == 6 && !store_map(*old(store)).contains_key((r->Ok_0)@) && store_map(
            *final(store),
        ) == submit_effect(
            store_map(*old(store)),
            (r->Ok_0)@,
            parent_id@,
            title@,
            message@,
            outcome_ref(attachment),
            now,
        ),
        r is Err && r->Err_0 == SubmitError::StoreFailure ==> validation_of(title@, message@)
            is None && !(attachment is Oversize) && partial_submit_effect(
            store_map(*old(store)),
            store_map(*final(store)),
            parent_id@,
            title@,
            message@,
            outcome_ref(attachment),
            now,
        ),
        r is Err && r->Err_0 == SubmitError::AttachmentTooLarge ==> validation_of(
            title@,
            message@,
        ) is None && attachment is Oversize,
        r is Err && r->Err_0 != SubmitError::StoreFailure && r->Err_0
            != SubmitError::AttachmentTooLarge ==> validation_of(title@, message@) == Some(
            r->Err_0,
        ),
{
    if !has_content(title) {
        return Err(SubmitError::EmptyTitle);
    }
    if !has_content(message) {
        return Err(SubmitError::EmptyMessage);
    }
    if title.unicode_len() > TITLE_MAX_CHARS {
        return Err(SubmitError::TitleTooLong);
    }
    if message.unicode_len() > MESSAGE_MAX_CHARS {
        return Err(SubmitError::MessageTooLong);
    }
    let att: Option<String> = match attachment {
        AttachmentOutcome::Oversize => {
            return Err(SubmitError::AttachmentTooLarge);
        },
        AttachmentOutcome::Stored(n) => Some(n),
        AttachmentOutcome::NoAttachment => None,
    };
    let id = match fresh_id(store) {
        Ok(id) => id,
        Err(_) => {
            return Err(SubmitError::StoreFailure);
        },
    };
    proof {
        reveal_strlit("0");
        assert("0"@ =~= root_sentinel());
    }
    let is_reply = !str_eq(parent_id, "0");
    let mut parent_bytes: Option<Vec<u8>> = None;
    if is_reply {
        match store.get_raw(parent_id) {
            Ok(v) => {
                parent_bytes = v;
            },
            Err(_) => {
                return Err(SubmitError::StoreFailure);
            },
        }
    }
    let post = Post {
        id: id.clone(),
        parent_id: parent_id.to_owned(),
        title: escape_html(title),
        message: escape_html(message),
        attachment: att,
        last_activity: now,
    };
    let bytes = encode_post(&post);
    let ghost written = post_bytes(
        new_post_view(id@, parent_id@, title@, message@, outcome_ref(attachment), now),
    );
    match store.put_raw(id.as_str(), &bytes) {
        Ok(_) => {},
        Err(_) => {
            proof {
                assert(bytes@ == written);
                if store_map(*store) != store_map(*old(store)) {
                    assert(store_map(*store) == store_map(*old(store)).insert(id@, written));
                    assert(id@.len() == 6 && !store_map(*old(store)).contains_key(id@));
                }
                assert(partial_submit_effect(
                    store_map(*old(store)),
                    store_map(*store),
                    parent_id@,
                    title@,
                    message@,
                    outcome_ref(attachment),
                    now,
                ));
            }
            return Err(SubmitError::StoreFailure);
        },
    }
    if is_reply {
        match parent_bytes {
            Some(pb) => {
                match decode_post(&pb) {
                    Ok(parent_post) => {
                        let new_la = if parent_post.last_activity >= now {
                            parent_post.last_activity
                        } else {
                            now
                        };
                        let refreshed = Post {
                            id: parent_post.id,
                            parent_id: parent_post.parent_id,
                            title: parent_post.title,
                            message: parent_post.message,
                            attachment: parent_post.attachment,
                            last_activity: new_la,
                        };
                        proof {
                            assert(refreshed@ == bumped(
                                parse_post(store_map(*old(store))[parent_id@])->0,
                                now,
                            ));
                        }
                        let pbytes = encode_post(&refreshed);
                        let ghost effect = submit_effect(
                            store_map(*old(store)),
                            id@,
                            parent_id@,
                            title@,
                            message@,
                            outcome_ref(attachment),
                            now,
                        );
                        match store.put_raw(parent_id, &pbytes) {
                            Ok(_) => {},
                            Err(_) => {
                                proof {
                                    let m_old = store_map(*old(store));
                                    assert(effect == m_old.insert(id@, written).insert(
                                        parent_id@,
                                        pbytes@,
                                    ));
                                    if store_map(*store) != m_old.insert(id@, written) {
                                        assert(store_map(*store) == effect);
                                    }
                                    assert(id@.len() == 6 && !m_old.contains_key(id@));
                                    assert(partial_submit_effect(
                                        m_old,
                                        store_map(*store),
                                        parent_id@,
                                        title@,
                                        message@,
                                        outcome_ref(attachment),
                                        now,
                                    ));
                                }
                                return Err(SubmitError::StoreFailure);
                            },
                        }
                    },
                    Err(_) => {},
                }
            },
            None => {},
        }
    }
    assert(store_map(*store) =~= submit_effect(
        store_map(*old(store)),
        id@,
        parent_id@,
        title@,
        message@,
        outcome_ref(attachment),
        now,
    ));
    Ok(id)
}

} // verus!
