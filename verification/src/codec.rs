use vstd::prelude::*;
use crate::bytes::{le_u64, lemma_le_u64_round_trip, push_u64_le, read_u64_le, u64_le};
use crate::post::{Post, PostView};
use vstd::slice::{slice_subrange, slice_to_vec};
use vstd::string::StrSliceExecFns;
use vstd::utf8::{decode_utf8, encode_utf8, encode_utf8_decode_utf8, encode_utf8_valid_utf8,
    valid_utf8};

verus! {

/// A stored record that cannot be read back as a post.
#[derive(Clone, Copy, PartialEq, Eq, Structural, Debug)]
pub struct DecodeError;

/// The version tag that opens every encoded post record.
pub const RECORD_TAG: u8 = 1;

/// A length-prefixed string field: the UTF-8 byte length as eight
/// little-endian bytes, then the UTF-8 bytes themselves.
pub open spec fn str_block(s: Seq<char>) -> Seq<u8> {
    u64_le(encode_utf8(s).len() as u64) + encode_utf8(s)
}

/// The encoded record of a post: a tag byte, the activity timestamp, the
/// four text fields, and the optional attachment reference.
pub open spec fn post_bytes(p: PostView) -> Seq<u8> {
    seq![RECORD_TAG] + u64_le(p.last_activity) + str_block(p.id) + str_block(p.parent_id)
        + str_block(p.title) + str_block(p.message) + match p.attachment {
        None => seq![0u8],
        Some(a) => seq![1u8] + str_block(a),
    }
}

/// Whether every field of `p` is small enough for its byte length to be
/// written as a 64-bit prefix.  Every post built by executable code fits.
pub open spec fn view_fits(p: PostView) -> bool {
    &&& encode_utf8(p.id).len() <= u64::MAX
    &&& encode_utf8(p.parent_id).len() <= u64::MAX
    &&& encode_utf8(p.title).len() <= u64::MAX
    &&& encode_utf8(p.message).len() <= u64::MAX
    &&& match p.attachment {
        None => true,
        Some(a) => encode_utf8(a).len() <= u64::MAX,
    }
}

/// Parses one length-prefixed string field at position `i`, returning the
/// characters and the position just past the field.
pub open spec fn parse_str_at(b: Seq<u8>, i: int) -> Option<(Seq<char>, int)> {
    if 0 <= i && i + 8 <= b.len() {
        let n = le_u64(b.subrange(i, i + 8)) as int;
        if i + 8 + n <= b.len() && valid_utf8(b.subrange(i + 8, i + 8 + n)) {
            Some((decode_utf8(b.subrange(i + 8, i + 8 + n)), i + 8 + n))
        } else {
            None
        }
    } else {
        None
    }
}

/// Parses a whole record.  Yields `None` on a truncated or structurally
/// invalid record; trailing bytes are invalid too.
pub open spec fn parse_post(b: Seq<u8>) -> Option<PostView> {
    if b.len() >= 9 && b[0] == RECORD_TAG {
        let la = le_u64(b.subrange(1, 9));
        match parse_str_at(b, 9) {
            Some((id, i1)) => match parse_str_at(b, i1) {
                Some((parent_id, i2)) => match parse_str_at(b, i2) {
                    Some((title, i3)) => match parse_str_at(b, i3) {
                        Some((message, i4)) => {
                            if i4 + 1 == b.len() && b[i4] == 0u8 {
                                Some(
                                    PostView {
                                        id,
                                        parent_id,
                                        title,
                                        message,
                                        attachment: None,
                                        last_activity: la,
                                    },
                                )
                            } else if i4 < b.len() && b[i4] == 1u8 {
                                match parse_str_at(b, i4 + 1) {
                                    Some((a, i5)) => if i5 == b.len() {
                                        Some(
                                            PostView {
                                                id,
                                                parent_id,
                                                title,
                                                message,
                                                attachment: Some(a),
                                                last_activity: la,
                                            },
                                        )
                                    } else {
                                        None
                                    },
                                    None => None,
                                }
                            } else {
                                None
                            }
                        },
                        None => None,
                    },
                    None => None,
                },
                None => None,
            },
            None => None,
        }
    } else {
        None
    }
}

/// Parsing a string field out of surrounding bytes recovers exactly the
/// characters that `str_block` wrote.
pub proof fn lemma_parse_str_block(pre: Seq<u8>, s: Seq<char>, rest: Seq<u8>)
    requires
        encode_utf8(s).len() <= u64::MAX,
    ensures
        parse_str_at(pre + str_block(s) + rest, pre.len() as int) == Some(
            (s, pre.len() + 8 + encode_utf8(s).len() as int),
        ),
{
    broadcast use encode_utf8_valid_utf8;

    let b = pre + str_block(s) + rest;
    let i = pre.len() as int;
    let e = encode_utf8(s);
    assert(b.subrange(i, i + 8) =~= u64_le(e.len() as u64));
    lemma_le_u64_round_trip(e.len() as u64);
    let n = le_u64(b.subrange(i, i + 8)) as int;
    assert(n == e.len());
    assert(b.subrange(i + 8, i + 8 + n) =~= e);
    encode_utf8_decode_utf8(s);
}

/// The positions where the four text fields of an encoded post end.
pub open spec fn field_end_1(p: PostView) -> int {
    9 + 8 + encode_utf8(p.id).len() as int
}

pub open spec fn field_end_2(p: PostView) -> int {
    field_end_1(p) + 8 + encode_utf8(p.parent_id).len() as int
}

pub open spec fn field_end_3(p: PostView) -> int {
    field_end_2(p) + 8 + encode_utf8(p.title).len() as int
}

pub open spec fn field_end_4(p: PostView) -> int {
    field_end_3(p) + 8 + encode_utf8(p.message).len() as int
}

#[verifier::rlimit(100)]
proof fn lemma_parse_head(p: PostView)
    requires
        view_fits(p),
    ensures
        post_bytes(p).len() >= 9,
        post_bytes(p)[0] == RECORD_TAG,
        le_u64(post_bytes(p).subrange(1, 9)) == p.last_activity,
        parse_str_at(post_bytes(p), 9) == Some((p.id, field_end_1(p))),
{
    let b = post_bytes(p);
    let head = seq![RECORD_TAG] + u64_le(p.last_activity);
    assert(b.subrange(1, 9) =~= u64_le(p.last_activity));
    lemma_le_u64_round_trip(p.last_activity);
    let tail = match p.attachment {
        None => seq![0u8],
        Some(a) => seq![1u8] + str_block(a),
    };
    let rest = str_block(p.parent_id) + str_block(p.title) + str_block(p.message) + tail;
    assert(b =~= head + str_block(p.id) + rest);
    lemma_parse_str_block(head, p.id, rest);
}

#[verifier::rlimit(100)]
proof fn lemma_parse_middle(p: PostView)
    requires
        view_fits(p),
    ensures
        parse_str_at(post_bytes(p), field_end_1(p)) == Some((p.parent_id, field_end_2(p))),
        parse_str_at(post_bytes(p), field_end_2(p)) == Some((p.title, field_end_3(p))),
        parse_str_at(post_bytes(p), field_end_3(p)) == Some((p.message, field_end_4(p))),
{
    let b = post_bytes(p);
    let head = seq![RECORD_TAG] + u64_le(p.last_activity);
    let tail = match p.attachment {
        None => seq![0u8],
        Some(a) => seq![1u8] + str_block(a),
    };
    assert(parse_str_at(b, field_end_1(p)) == Some((p.parent_id, field_end_2(p)))) by {
        let pre = head + str_block(p.id);
        let rest = str_block(p.title) + str_block(p.message) + tail;
        assert(b =~= pre + str_block(p.parent_id) + rest);
        lemma_parse_str_block(pre, p.parent_id, rest);
    };
    assert(parse_str_at(b, field_end_2(p)) == Some((p.title, field_end_3(p)))) by {
        let pre = head + str_block(p.id) + str_block(p.parent_id);
        let rest = str_block(p.message) + tail;
        assert(b =~= pre + str_block(p.title) + rest);
        lemma_parse_str_block(pre, p.title, rest);
    };
    assert(parse_str_at(b, field_end_3(p)) == Some((p.message, field_end_4(p)))) by {
        let pre = head + str_block(p.id) + str_block(p.parent_id) + str_block(p.title);
        assert(b =~= pre + str_block(p.message) + tail);
        lemma_parse_str_block(pre, p.message, tail);
    };
}

#[verifier::rlimit(100)]
proof fn lemma_parse_tail(p: PostView)
    requires
        view_fits(p),
    ensures
        match p.attachment {
            None => post_bytes(p)[field_end_4(p)] == 0u8 && field_end_4(p) + 1 == post_bytes(
                p,
            ).len(),
            Some(a) => post_bytes(p)[field_end_4(p)] == 1u8 && parse_str_at(
                post_bytes(p),
                field_end_4(p) + 1,
            ) == Some((a, post_bytes(p).len() as int)),
        },
{
    let b = post_bytes(p);
    let head = seq![RECORD_TAG] + u64_le(p.last_activity);
    let i4 = field_end_4(p);
    match p.attachment {
        None => {
            assert(b[i4] == 0u8 && i4 + 1 == b.len());
        },
        Some(a) => {
            assert(b[i4] == 1u8);
            let pre = head + str_block(p.id) + str_block(p.parent_id) + str_block(p.title)
                + str_block(p.message) + seq![1u8];
            assert(b =~= pre + str_block(a) + Seq::<u8>::empty());
            lemma_parse_str_block(pre, a, Seq::<u8>::empty());
        },
    }
}

/// Round trip: decoding an encoded post yields the post unchanged.
#[verifier::rlimit(100)]
pub proof fn lemma_parse_post_bytes(p: PostView)
    requires
        view_fits(p),
    ensures
        parse_post(post_bytes(p)) == Some(p),
{
    lemma_parse_head(p);
    lemma_parse_middle(p);
    lemma_parse_tail(p);
    assert(parse_post(post_bytes(p)) == Some(p));
}

/// Relies on `String::from_utf8`: it succeeds exactly on valid UTF-8 input
/// and decodes those bytes to their characters.
#[verifier::external_body]
fn bytes_to_string(b: Vec<u8>) -> (r: Option<String>)
    ensures
        r is Some <==> valid_utf8(b@),
        r is Some ==> r->0@ == decode_utf8(b@),
{
    String::from_utf8(b).ok()
}

/// Appends one length-prefixed string field to `out`.
fn push_str_block(out: &mut Vec<u8>, s: &str)
    ensures
        final(out)@ == old(out)@ + str_block(s@),
        encode_utf8(s@).len() <= u64::MAX,
{
    let bs: Vec<u8> = s.as_bytes_vec();
    push_u64_le(out, bs.len() as u64);
    let mut tail = bs;
    out.append(&mut tail);
    assert(out@ =~= old(out)@ + str_block(s@));
}

/// Serializes a post for storage.
pub fn encode_post(p: &Post) -> (r: Vec<u8>)
    ensures
        r@ == post_bytes(p@),
        view_fits(p@),
{
    let mut out: Vec<u8> = Vec::new();
    out.push(RECORD_TAG);
    push_u64_le(&mut out, p.last_activity);
    push_str_block(&mut out, p.id.as_str());
    push_str_block(&mut out, p.parent_id.as_str());
    push_str_block(&mut out, p.title.as_str());
    push_str_block(&mut out, p.message.as_str());
    match &p.attachment {
        None => out.push(0u8),
        Some(a) => {
            out.push(1u8);
            push_str_block(&mut out, a.as_str());
        },
    }
    assert(out@ =~= post_bytes(p@));
    out
}

/// Reads one length-prefixed string field at position `i`.
fn read_str_block(b: &Vec<u8>, i: usize) -> (r: Result<(String, usize), DecodeError>)
    ensures
        match r {
            Ok((s, j)) => parse_str_at(b@, i as int) == Some((s@, j as int)) && i < j <= b@.len(),
            Err(_) => parse_str_at(b@, i as int) is None,
        },
{
    let total: usize = b.len();
    if i > total || total - i < 8 {
        return Err(DecodeError);
    }
    let ln: u64 = read_u64_le(b, i);
    let rem: usize = total - (i + 8);
    if ln > rem as u64 {
        return Err(DecodeError);
    }
    let cnt: usize = ln as usize;
    let raw = slice_to_vec(slice_subrange(b.as_slice(), i + 8, i + 8 + cnt));
    assert(raw@ =~= b@.subrange(i as int + 8, i as int + 8 + cnt as int));
    match bytes_to_string(raw) {
        Some(s) => Ok((s, i + 8 + cnt)),
        None => Err(DecodeError),
    }
}

/// Deserializes a stored record.  Fails on truncated or structurally
/// invalid bytes; callers skip such records during scans.
pub fn decode_post(b: &Vec<u8>) -> (r: Result<Post, DecodeError>)
    ensures
        match r {
            Ok(p) => parse_post(b@) == Some(p@),
            Err(_) => parse_post(b@) is None,
        },
{
    let total: usize = b.len();
    if total < 9 || b[0] != RECORD_TAG {
        return Err(DecodeError);
    }
    let la: u64 = read_u64_le(b, 1);
    let (id, i1) = match read_str_block(b, 9) {
        Ok(v) => v,
        Err(e) => {
            return Err(e);
        },
    };
    let (parent_id, i2) = match read_str_block(b, i1) {
        Ok(v) => v,
        Err(e) => {
            return Err(e);
        },
    };
    let (title, i3) = match read_str_block(b, i2) {
        Ok(v) => v,
        Err(e) => {
            return Err(e);
        },
    };
    let (message, i4) = match read_str_block(b, i3) {
        Ok(v) => v,
        Err(e) => {
            return Err(e);
        },
    };
    if i4 < total && i4 == total - 1 && b[i4] == 0u8 {
        let p = Post { id, parent_id, title, message, attachment: None, last_activity: la };
        assert(parse_post(b@) == Some(p@));
        return Ok(p);
    }
    if i4 < total && b[i4] == 1u8 {
        let (a, i5) = match read_str_block(b, i4 + 1) {
            Ok(v) => v,
            Err(e) => {
                return Err(e);
            },
        };
        if i5 == total {
            let p = Post {
                id,
                parent_id,
                title,
                message,
                attachment: Some(a),
                last_activity: la,
            };
            assert(parse_post(b@) == Some(p@));
            return Ok(p);
        }
        return Err(DecodeError);
    }
    Err(DecodeError)
}

} // verus!
