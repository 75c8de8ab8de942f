use vstd::prelude::*;
use std::collections::hash_map::DefaultHasher;
use std::hash::Hasher;
use vstd::std_specs::hash::DefaultHasherAdditionalSpecFns;
use vstd::string::StringExecFns;
use vstd::utf8::encode_utf8;

verus! {

/// The sixteen hexadecimal digits, upper case.
pub open spec fn hex_digit(d: int) -> char
    recommends
        0 <= d < 16,
{
    if d == 0 {
        '0'
    } else if d == 1 {
        '1'
    } else if d == 2 {
        '2'
    } else if d == 3 {
        '3'
    } else if d == 4 {
        '4'
    } else if d == 5 {
        '5'
    } else if d == 6 {
        '6'
    } else if d == 7 {
        '7'
    } else if d == 8 {
        '8'
    } else if d == 9 {
        '9'
    } else if d == 10 {
        'A'
    } else if d == 11 {
        'B'
    } else if d == 12 {
        'C'
    } else if d == 13 {
        'D'
    } else if d == 14 {
        'E'
    } else {
        'F'
    }
}

/// The display colour a 64-bit hash yields: a number sign and six hex
/// digits, from the hash's low three bytes.
pub open spec fn color_of(h: u64) -> Seq<char> {
    seq![
        '#',
        hex_digit((((h >> 4) & 0xF)) as int),
        hex_digit(((h & 0xF)) as int),
        hex_digit((((h >> 12) & 0xF)) as int),
        hex_digit((((h >> 8) & 0xF)) as int),
        hex_digit((((h >> 20) & 0xF)) as int),
        hex_digit((((h >> 16) & 0xF)) as int),
    ]
}

/// Appends one hexadecimal digit.
fn push_hex(out: &mut String, d: u64)
    requires
        d < 16,
    ensures
        final(out)@ == old(out)@ + seq![hex_digit(d as int)],
{
    if d == 0 {
        out.append("0");
        proof {
            reveal_strlit("0");
            assert("0"@ =~= seq![hex_digit(d as int)]);
        }
    } else if d == 1 {
        out.append("1");
        proof {
            reveal_strlit("1");
            assert("1"@ =~= seq![hex_digit(d as int)]);
        }
    } else if d == 2 {
        out.append("2");
        proof {
            reveal_strlit("2");
            assert("2"@ =~= seq![hex_digit(d as int)]);
        }
    } else if d == 3 {
        out.append("3");
        proof {
            reveal_strlit("3");
            assert("3"@ =~= seq![hex_digit(d as int)]);
        }
    } else if d == 4 {
        out.append("4");
        proof {
            reveal_strlit("4");
            assert("4"@ =~= seq![hex_digit(d as int)]);
        }
    } else if d == 5 {
        out.append("5");
        proof {
            reveal_strlit("5");
            assert("5"@ =~= seq![hex_digit(d as int)]);
        }
    } else if d == 6 {
        out.append("6");
        proof {
            reveal_strlit("6");
            assert("6"@ =~= seq![hex_digit(d as int)]);
        }
    } else if d == 7 {
        out.append("7");
        proof {
            reveal_strlit("7");
            assert("7"@ =~= seq![hex_digit(d as int)]);
        }
    } else if d == 8 {
        out.append("8");
        proof {
            reveal_strlit("8");
            assert("8"@ =~= seq![hex_digit(d as int)]);
        }
    } else if d == 9 {
        out.append("9");
        proof {
            reveal_strlit("9");
            assert("9"@ =~= seq![hex_digit(d as int)]);
        }
    } else if d == 10 {
        out.append("A");
        proof {
            reveal_strlit("A");
            assert("A"@ =~= seq![hex_digit(d as int)]);
        }
    } else if d == 11 {
        out.append("B");
        proof {
            reveal_strlit("B");
            assert("B"@ =~= seq![hex_digit(d as int)]);
        }
    } else if d == 12 {
        out.append("C");
        proof {
            reveal_strlit("C");
            assert("C"@ =~= seq![hex_digit(d as int)]);
        }
    } else if d == 13 {
        out.append("D");
        proof {
            reveal_strlit("D");
            assert("D"@ =~= seq![hex_digit(d as int)]);
        }
    } else if d == 14 {
        out.append("E");
        proof {
            reveal_strlit("E");
            assert("E"@ =~= seq![hex_digit(d as int)]);
        }
    } else {
        out.append("F");
        proof {
            reveal_strlit("F");
            assert("F"@ =~= seq![hex_digit(d as int)]);
        }
    }
}

/// A deterministic display colour for a post id: the same id always
/// yields the same colour, used only for visual grouping.  The id's
/// bytes are run through the standard library's default hasher.
pub fn generate_color_from_id(id: &str) -> (r: String)
    ensures
        r@ == color_of(DefaultHasher::spec_finish(seq![encode_utf8(id@)])),
{
    let mut hasher = DefaultHasher::new();
    hasher.write(id.as_bytes());
    proof {
        assert(hasher@ =~= seq![encode_utf8(id@)]);
    }
    let h = hasher.finish();
    let mut out = String::new();
    out.append("#");
    proof {
        reveal_strlit("#");
        assert("#"@ =~= seq!['#']);
        assert(((h >> 4) & 0xF) < 16 && (h & 0xF) < 16 && ((h >> 12) & 0xF) < 16 && ((h >> 8)
            & 0xF) < 16 && ((h >> 20) & 0xF) < 16 && ((h >> 16) & 0xF) < 16) by (bit_vector);
    }
    push_hex(&mut out, (h >> 4) & 0xF);
    push_hex(&mut out, h & 0xF);
    push_hex(&mut out, (h >> 12) & 0xF);
    push_hex(&mut out, (h >> 8) & 0xF);
    push_hex(&mut out, (h >> 20) & 0xF);
    push_hex(&mut out, (h >> 16) & 0xF);
    proof {
        assert(out@ =~= color_of(h));
    }
    out
}

} // verus!
