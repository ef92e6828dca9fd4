//! The response envelope: the JSON object `{"reason":"<text>"}` around one
//! served reason, built byte by byte with JSON string escaping.

use vstd::prelude::*;

verus! {

/// A lower-case hexadecimal digit.
pub open spec fn hex_digit_lower(d: int) -> u8
    recommends
        0 <= d < 16,
{
    if d < 10 {
        (0x30 + d) as u8
    } else {
        (0x57 + d) as u8
    }
}

/// The JSON escaping of one byte of a reason: quote and backslash get a
/// backslash escape, the five control characters with short forms get
/// those, every other control byte becomes `\u00xx`, and all other bytes
/// (multi-byte UTF-8 sequences included) pass through unchanged.
pub open spec fn escape_byte(b: u8) -> Seq<u8> {
    if b == 0x22 {
        seq![0x5cu8, 0x22u8]
    } else if b == 0x5c {
        seq![0x5cu8, 0x5cu8]
    } else if b == 0x08 {
        seq![0x5cu8, 0x62u8]
    } else if b == 0x09 {
        seq![0x5cu8, 0x74u8]
    } else if b == 0x0a {
        seq![0x5cu8, 0x6eu8]
    } else if b == 0x0c {
        seq![0x5cu8, 0x66u8]
    } else if b == 0x0d {
        seq![0x5cu8, 0x72u8]
    } else if b < 0x20 {
        seq![
            0x5cu8,
            0x75u8,
            0x30u8,
            0x30u8,
            hex_digit_lower(b as int / 16),
            hex_digit_lower(b as int % 16),
        ]
    } else {
        seq![b]
    }
}

/// The escaped form of a whole reason.
pub open spec fn escape_bytes(s: Seq<u8>) -> Seq<u8>
    decreases s.len(),
{
    if s.len() == 0 {
        Seq::empty()
    } else {
        escape_byte(s[0]) + escape_bytes(s.drop_first())
    }
}

/// The bytes of `{"reason":"`.
pub open spec fn envelope_prefix() -> Seq<u8> {
    seq![0x7bu8, 0x22u8, 0x72u8, 0x65u8, 0x61u8, 0x73u8, 0x6fu8, 0x6eu8, 0x22u8, 0x3au8, 0x22u8]
}

/// The whole response body around one reason: `{"reason":"<escaped>"}`.
pub open spec fn envelope_spec(reason: Seq<u8>) -> Seq<u8> {
    envelope_prefix() + escape_bytes(reason) + seq![0x22u8, 0x7du8]
}

proof fn lemma_escape_bytes_snoc(s: Seq<u8>, i: int)
    requires
        0 <= i < s.len(),
    ensures
        escape_bytes(s.take(i + 1)) == escape_bytes(s.take(i)) + escape_byte(s[i]),
    decreases i,
{
    if i == 0 {
        assert(s.take(1) =~= seq![s[0]]);
        assert(s.take(0) =~= Seq::<u8>::empty());
        assert(seq![s[0]].drop_first() =~= Seq::<u8>::empty());
        assert(escape_byte(s[0]) + Seq::<u8>::empty() =~= escape_byte(s[0]));
        assert(Seq::<u8>::empty() + escape_byte(s[0]) =~= escape_byte(s[0]));
    } else {
        let s1 = s.drop_first();
        assert(s.take(i + 1).drop_first() =~= s1.take(i));
        assert(s.take(i).drop_first() =~= s1.take(i - 1));
        lemma_escape_bytes_snoc(s1, i - 1);
        assert(s1[i - 1] == s[i]);
        assert(escape_byte(s[0]) + (escape_bytes(s1.take(i - 1)) + escape_byte(s[i])) =~= (
        escape_byte(s[0]) + escape_bytes(s1.take(i - 1))) + escape_byte(s[i]));
    }
}

fn hex_digit_lower_exec(d: u8) -> (r: u8)
    requires
        d < 16,
    ensures
        r == hex_digit_lower(d as int),
{
    if d < 10 {
        0x30 + d
    } else {
        0x57 + d
    }
}

/// Builds the response body for one reason.
pub fn response_body(reason: &Vec<u8>) -> (r: Vec<u8>)
    ensures
        r@ == envelope_spec(reason@),
{
    let mut out: Vec<u8> = Vec::new();
    out.push(0x7b);
    out.push(0x22);
    out.push(0x72);
    out.push(0x65);
    out.push(0x61);
    out.push(0x73);
    out.push(0x6f);
    out.push(0x6e);
    out.push(0x22);
    out.push(0x3a);
    out.push(0x22);
    proof {
        assert(out@ =~= envelope_prefix());
        assert(reason@.take(0) =~= Seq::<u8>::empty());
    }
    let mut k: usize = 0;
    while k < reason.len()
        invariant
            k <= reason@.len(),
            out@ == envelope_prefix() + escape_bytes(reason@.take(k as int)),
        decreases reason@.len() - k,
    {
        let ghost out0 = out@;
        let b = reason[k];
        if b == 0x22 {
            out.push(0x5c);
            out.push(0x22);
        } else if b == 0x5c {
            out.push(0x5c);
            out.push(0x5c);
        } else if b == 0x08 {
            out.push(0x5c);
            out.push(0x62);
        } else if b == 0x09 {
            out.push(0x5c);
            out.push(0x74);
        } else if b == 0x0a {
            out.push(0x5c);
            out.push(0x6e);
        } else if b == 0x0c {
            out.push(0x5c);
            out.push(0x66);
        } else if b == 0x0d {
            out.push(0x5c);
            out.push(0x72);
        } else if b < 0x20 {
            out.push(0x5c);
            out.push(0x75);
            out.push(0x30);
            out.push(0x30);
            out.push(hex_digit_lower_exec(b / 16));
            out.push(hex_digit_lower_exec(b % 16));
        } else {
            out.push(b);
        }
        proof {
            assert(out@ =~= out0 + escape_byte(reason@[k as int]));
            lemma_escape_bytes_snoc(reason@, k as int);
            assert(out@ =~= envelope_prefix() + escape_bytes(reason@.take(k as int + 1)));
        }
        k += 1;
    }
    proof {
        assert(reason@.take(reason@.len() as int) =~= reason@);
    }
    out.push(0x22);
    out.push(0x7d);
    proof {
        assert(out@ =~= envelope_spec(reason@));
    }
    out
}

} // verus!
