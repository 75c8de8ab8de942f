use vstd::prelude::*;
use vstd::string::{StrSliceExecFns, StringExecFns};
use vstd::utf8::{encode_utf8, encode_utf8_decode_utf8};

verus! {

/// Two character sequences with the same UTF-8 encoding are the same.
pub proof fn lemma_encode_utf8_injective(a: Seq<char>, b: Seq<char>)
    ensures
        encode_utf8(a) == encode_utf8(b) ==> a == b,
{
    if encode_utf8(a) == encode_utf8(b) {
        encode_utf8_decode_utf8(a);
        encode_utf8_decode_utf8(b);
    }
}

/// Exact equality of two strings, by comparing their UTF-8 bytes.
pub fn str_eq(a: &str, b: &str) -> (r: bool)
    ensures
        r == (a@ == b@),
{
    proof {
        lemma_encode_utf8_injective(a@, b@);
    }
    let ab = a.as_bytes();
    let bb = b.as_bytes();
    if ab.len() != bb.len() {
        return false;
    }
    let n = ab.len();
    for i in 0..n
        invariant
            forall|k: int| 0 <= k < i ==> ab@[k] == bb@[k],
            n == ab@.len() && n == bb@.len(),
            ab@ == encode_utf8(a@) && bb@ == encode_utf8(b@),
            encode_utf8(a@) == encode_utf8(b@) ==> a@ == b@,
    {
        if *vstd::slice::slice_index_get(ab, i) != *vstd::slice::slice_index_get(bb, i) {
            return false;
        }
    }
    proof {
        assert(ab@ =~= bb@);
    }
    true
}

/// The characters with Unicode's White_Space property — what trimming
/// strips — so that a field of nothing but (say) no-break spaces still
/// counts as empty.
pub open spec fn is_space(c: char) -> bool {
    let n = c as u32;
    (0x9 <= n && n <= 0xD) || n == 0x20 || n == 0x85 || n == 0xA0 || n == 0x1680 || (0x2000 <= n
        && n <= 0x200A) || n == 0x2028 || n == 0x2029 || n == 0x202F || n == 0x205F || n == 0x3000
}

/// Whether a text is entirely white space (an empty text is).
pub open spec fn all_space(s: Seq<char>) -> bool {
    forall|i: int| 0 <= i < s.len() ==> is_space(s[i])
}

/// Whether one character is white space.
fn is_space_char(c: char) -> (r: bool)
    ensures
        r == is_space(c),
{
    let n = c as u32;
    (0x9 <= n && n <= 0xD) || n == 0x20 || n == 0x85 || n == 0xA0 || n == 0x1680 || (0x2000 <= n
        && n <= 0x200A) || n == 0x2028 || n == 0x2029 || n == 0x202F || n == 0x205F || n == 0x3000
}

/// Whether the text holds anything besides white space, i.e. whether it is
/// non-empty after trimming.
pub fn has_content(s: &str) -> (r: bool)
    ensures
        r == !all_space(s@),
{
    let n = s.unicode_len();
    for i in 0..n
        invariant
            forall|k: int| 0 <= k < i ==> is_space(s@[k]),
            n == s@.len(),
    {
        let c = s.get_char(i);
        if !is_space_char(c) {
            return true;
        }
    }
    false
}

/// What one character becomes in generated HTML: the five markup
/// characters turn into entities, every other character stands unchanged.
pub open spec fn escape_char(c: char) -> Seq<char> {
    if c == '&' {
        seq!['&', 'a', 'm', 'p', ';']
    } else if c == '<' {
        seq!['&', 'l', 't', ';']
    } else if c == '>' {
        seq!['&', 'g', 't', ';']
    } else if c == '"' {
        seq!['&', 'q', 'u', 'o', 't', ';']
    } else if c == '\'' {
        seq!['&', '#', '3', '9', ';']
    } else {
        seq![c]
    }
}

/// A text escaped for safe embedding in generated HTML.
pub open spec fn escape_text(s: Seq<char>) -> Seq<char>
    decreases s.len(),
{
    if s.len() == 0 {
        Seq::empty()
    } else {
        escape_char(s[0]) + escape_text(s.drop_first())
    }
}

/// Escaping a text is escaping all but its last character, then that one.
proof fn lemma_escape_text_snoc(s: Seq<char>)
    requires
        s.len() > 0,
    ensures
        escape_text(s) == escape_text(s.drop_last()) + escape_char(s.last()),
    decreases s.len(),
{
    if s.len() == 1 {
        assert(s.drop_first().len() == 0);
        assert(s.drop_last().len() == 0);
        assert(escape_text(s.drop_first()) =~= Seq::<char>::empty());
        assert(escape_text(s.drop_last()) =~= Seq::<char>::empty());
        assert(escape_text(s) == escape_char(s[0]) + escape_text(s.drop_first()));
        assert(escape_text(s) =~= escape_text(s.drop_last()) + escape_char(s.last()));
    } else {
        lemma_escape_text_snoc(s.drop_first());
        assert(s.drop_first().drop_last() =~= s.drop_last().drop_first());
        assert(s.drop_first().last() == s.last());
        assert(escape_char(s[0]) + (escape_text(s.drop_last().drop_first()) + escape_char(s.last()))
            =~= (escape_char(s[0]) + escape_text(s.drop_last().drop_first())) + escape_char(
            s.last(),
        ));
        assert(s.drop_last()[0] == s[0]);
    }
}

/// Escapes a text for safe embedding in generated HTML.
pub fn escape_html(s: &str) -> (r: String)
    ensures
        r@ == escape_text(s@),
{
    let n = s.unicode_len();
    let mut out = String::new();
    for i in 0..n
        invariant
            out@ == escape_text(s@.take(i as int)),
            n == s@.len(),
    {
        let c = s.get_char(i);
        if c == '&' {
            out.append("&amp;");
            proof {
                reveal_strlit("&amp;");
                assert("&amp;"@ =~= escape_char(c));
            }
        } else if c == '<' {
            out.append("&lt;");
            proof {
                reveal_strlit("&lt;");
                assert("&lt;"@ =~= escape_char(c));
            }
        } else if c == '>' {
            out.append("&gt;");
            proof {
                reveal_strlit("&gt;");
                assert("&gt;"@ =~= escape_char(c));
            }
        } else if c == '"' {
            out.append("&quot;");
            proof {
                reveal_strlit("&quot;");
                assert("&quot;"@ =~= escape_char(c));
            }
        } else if c == '\'' {
            out.append("&#39;");
            proof {
                reveal_strlit("&#39;");
                assert("&#39;"@ =~= escape_char(c));
            }
        } else {
            let piece = s.substring_char(i, i + 1);
            out.append(piece);
            proof {
                assert(piece@ =~= escape_char(c));
            }
        }
        proof {
            let t = s@.take(i + 1);
            assert(t.drop_last() =~= s@.take(i as int));
            assert(t.last() == s@[i as int]);
            lemma_escape_text_snoc(t);
        }
    }
    proof {
        assert(s@.take(n as int) =~= s@);
    }
    out
}

/// Clips a text to at most `limit` characters for the listing view; the
/// flag says whether anything was cut.
pub fn clip_chars(s: &str, limit: usize) -> (r: (String, bool))
    ensures
        r.0@ == if s@.len() <= limit {
            s@
        } else {
            s@.take(limit as int)
        },
        r.1 == (s@.len() > limit),
{
    let n = s.unicode_len();
    if n <= limit {
        (s.to_owned(), false)
    } else {
        (s.substring_char(0, limit).to_owned(), true)
    }
}

} // verus!
