//! The data file format: a JSON array of strings, and nothing else.
//!
//! The format is defined here as a deterministic specification-level parser
//! over the raw bytes of the file: JSON whitespace, a top-level `[ ... ]`,
//! string literals with the eight simple escapes and `\uXXXX` escapes
//! (surrogate pairs required for non-BMP code points, lone surrogates
//! rejected), unescaped control bytes rejected, and no bytes but whitespace
//! after the closing bracket. The executable parser is proved to return
//! exactly what this definition says.

use vstd::prelude::*;

verus! {

/// JSON whitespace: space, tab, line feed, carriage return.
pub open spec fn is_ws(b: u8) -> bool {
    b == 0x20 || b == 0x09 || b == 0x0a || b == 0x0d
}

/// A hexadecimal digit, either case.
pub open spec fn is_hex_digit(b: u8) -> bool {
    (0x30 <= b && b <= 0x39) || (0x41 <= b && b <= 0x46) || (0x61 <= b && b <= 0x66)
}

/// The value of a hexadecimal digit.
pub open spec fn hex_val(b: u8) -> int
    recommends
        is_hex_digit(b),
{
    if 0x30 <= b && b <= 0x39 {
        b - 0x30
    } else if 0x41 <= b && b <= 0x46 {
        b - 0x41 + 10
    } else {
        b - 0x61 + 10
    }
}

/// The index of the first byte at or after `i` that is not JSON whitespace,
/// or the end of the input.
pub open spec fn skip_ws(s: Seq<u8>, i: int) -> int
    recommends
        0 <= i <= s.len(),
    decreases s.len() - i,
{
    if i < s.len() && is_ws(s[i]) {
        skip_ws(s, i + 1)
    } else {
        i
    }
}

pub proof fn lemma_skip_ws(s: Seq<u8>, i: int)
    requires
        0 <= i <= s.len(),
    ensures
        i <= skip_ws(s, i) <= s.len(),
        skip_ws(s, i) < s.len() ==> !is_ws(s[skip_ws(s, i)]),
    decreases s.len() - i,
{
    if i < s.len() && is_ws(s[i]) {
        lemma_skip_ws(s, i + 1);
    }
}

/// What a single-character escape `\x` stands for, if `x` is one of the
/// eight JSON escape characters.
pub open spec fn simple_escape(b: u8) -> Option<u8> {
    if b == 0x22 {
        Some(0x22u8)  // \" -> "
    } else if b == 0x5c {
        Some(0x5cu8)  // \\ -> \
    } else if b == 0x2f {
        Some(0x2fu8)  // \/ -> /
    } else if b == 0x62 {
        Some(0x08u8)  // \b -> backspace
    } else if b == 0x66 {
        Some(0x0cu8)  // \f -> form feed
    } else if b == 0x6e {
        Some(0x0au8)  // \n -> line feed
    } else if b == 0x72 {
        Some(0x0du8)  // \r -> carriage return
    } else if b == 0x74 {
        Some(0x09u8)  // \t -> tab
    } else {
        None
    }
}

/// Four hexadecimal digits starting at `i`, read as one number.
pub open spec fn hex4(s: Seq<u8>, i: int) -> Option<int> {
    if 0 <= i && i + 4 <= s.len() && is_hex_digit(s[i]) && is_hex_digit(s[i + 1]) && is_hex_digit(
        s[i + 2],
    ) && is_hex_digit(s[i + 3]) {
        Some(
            0x1000 * hex_val(s[i]) + 0x100 * hex_val(s[i + 1]) + 0x10 * hex_val(s[i + 2]) + hex_val(
                s[i + 3],
            ),
        )
    } else {
        None
    }
}

/// The UTF-8 encoding of the code point `c`.
pub open spec fn utf8_of(c: int) -> Seq<u8>
    recommends
        0 <= c < 0x110000,
{
    if c < 0x80 {
        seq![c as u8]
    } else if c < 0x800 {
        seq![(0xc0 + c / 0x40) as u8, (0x80 + c % 0x40) as u8]
    } else if c < 0x10000 {
        seq![(0xe0 + c / 0x1000) as u8, (0x80 + (c / 0x40) % 0x40) as u8, (0x80 + c % 0x40) as u8]
    } else {
        seq![
            (0xf0 + c / 0x40000) as u8,
            (0x80 + (c / 0x1000) % 0x40) as u8,
            (0x80 + (c / 0x40) % 0x40) as u8,
            (0x80 + c % 0x40) as u8,
        ]
    }
}

/// Parses the body of a string literal: the bytes after the opening quote.
/// Returns the unescaped contents and the index just past the closing quote.
///
/// Unescaped bytes below 0x20 are rejected; bytes at or above 0x80 pass
/// through unchanged (the input is UTF-8, and no multi-byte sequence can
/// contain a quote or backslash byte). A `\uXXXX` escape naming a high
/// surrogate must be followed immediately by a low-surrogate escape, and a
/// lone low surrogate is rejected.
pub open spec fn parse_string_body(s: Seq<u8>, i: int) -> Option<(Seq<u8>, int)>
    decreases s.len() - i,
{
    if i < 0 || i >= s.len() {
        None
    } else {
        let b = s[i];
        if b == 0x22 {
            Some((Seq::empty(), i + 1))
        } else if b == 0x5c {
            if i + 2 > s.len() {
                None
            } else {
                let e = s[i + 1];
                if e == 0x75 {
                    match hex4(s, i + 2) {
                        None => None,
                        Some(n1) => {
                            if 0xdc00 <= n1 && n1 < 0xe000 {
                                None
                            } else if 0xd800 <= n1 && n1 < 0xdc00 {
                                if i + 8 <= s.len() && s[i + 6] == 0x5c && s[i + 7] == 0x75 {
                                    match hex4(s, i + 8) {
                                        None => None,
                                        Some(n2) => {
                                            if 0xdc00 <= n2 && n2 < 0xe000 {
                                                match parse_string_body(s, i + 12) {
                                                    None => None,
                                                    Some((rest, k)) => Some(
                                                        (
                                                            utf8_of(
                                                                0x10000 + 0x400 * (n1 - 0xd800) + (
                                                                n2 - 0xdc00),
                                                            ) + rest,
                                                            k,
                                                        ),
                                                    ),
                                                }
                                            } else {
                                                None
                                            }
                                        },
                                    }
                                } else {
                                    None
                                }
                            } else {
                                match parse_string_body(s, i + 6) {
                                    None => None,
                                    Some((rest, k)) => Some((utf8_of(n1) + rest, k)),
                                }
                            }
                        },
                    }
                } else {
                    match simple_escape(e) {
                        None => None,
                        Some(x) => match parse_string_body(s, i + 2) {
                            None => None,
                            Some((rest, k)) => Some((seq![x] + rest, k)),
                        },
                    }
                }
            }
        } else if b < 0x20 {
            None
        } else {
            match parse_string_body(s, i + 1) {
                None => None,
                Some((rest, k)) => Some((seq![b] + rest, k)),
            }
        }
    }
}

/// Parses a string literal starting at `i`, which must be its opening quote.
pub open spec fn parse_string(s: Seq<u8>, i: int) -> Option<(Seq<u8>, int)> {
    if 0 <= i && i < s.len() && s[i] == 0x22 {
        parse_string_body(s, i + 1)
    } else {
        None
    }
}

pub proof fn lemma_parse_string_body_bounds(s: Seq<u8>, i: int)
    ensures
        parse_string_body(s, i) matches Some(p) ==> i < p.1 <= s.len(),
    decreases s.len() - i,
{
    if 0 <= i && i < s.len() {
        let b = s[i];
        if b == 0x5c && i + 2 <= s.len() {
            if s[i + 1] == 0x75 {
                if hex4(s, i + 2) is Some {
                    lemma_parse_string_body_bounds(s, i + 6);
                    if hex4(s, i + 8) is Some {
                        lemma_parse_string_body_bounds(s, i + 12);
                    }
                }
            } else {
                lemma_parse_string_body_bounds(s, i + 2);
            }
        } else {
            lemma_parse_string_body_bounds(s, i + 1);
        }
    }
}

pub proof fn lemma_parse_string_bounds(s: Seq<u8>, i: int)
    ensures
        parse_string(s, i) matches Some(p) ==> i < p.1 <= s.len(),
{
    lemma_parse_string_body_bounds(s, i + 1);
}

/// Parses the remainder of the array after one element: either a closing
/// bracket, or a comma followed by another string and the rest again.
/// Returns the elements after the current one, and the index just past the
/// closing bracket.
pub open spec fn parse_rest(s: Seq<u8>, i: int) -> Option<(Seq<Seq<u8>>, int)>
    decreases s.len() - i,
    via parse_rest_decreases
{
    if i < 0 || i > s.len() {
        None
    } else {
        let j = skip_ws(s, i);
        if j >= s.len() {
            None
        } else if s[j] == 0x5d {
            Some((Seq::empty(), j + 1))
        } else if s[j] == 0x2c {
            let k = skip_ws(s, j + 1);
            match parse_string(s, k) {
                None => None,
                Some((e, m)) => match parse_rest(s, m) {
                    None => None,
                    Some((rest, t)) => Some((seq![e].add(rest), t)),
                },
            }
        } else {
            None
        }
    }
}

#[via_fn]
proof fn parse_rest_decreases(s: Seq<u8>, i: int) {
    if 0 <= i && i <= s.len() {
        lemma_skip_ws(s, i);
        let j = skip_ws(s, i);
        if j < s.len() && s[j] == 0x2c {
            lemma_skip_ws(s, j + 1);
            let k = skip_ws(s, j + 1);
            lemma_parse_string_bounds(s, k);
        }
    }
}

/// The whole data file: optional whitespace, `[`, either an immediate `]`
/// or a first string followed by `, string`* and `]`, then only whitespace
/// to the end of the input. `None` is a parse error.
pub open spec fn parse_reasons_spec(s: Seq<u8>) -> Option<Seq<Seq<u8>>> {
    let i = skip_ws(s, 0);
    if i < s.len() && s[i] == 0x5b {
        let j = skip_ws(s, i + 1);
        if j < s.len() && s[j] == 0x5d {
            if skip_ws(s, j + 1) == s.len() {
                Some(Seq::empty())
            } else {
                None
            }
        } else {
            match parse_string(s, j) {
                None => None,
                Some((e, m)) => match parse_rest(s, m) {
                    None => None,
                    Some((rest, t)) => if skip_ws(s, t) == s.len() {
                        Some(seq![e].add(rest))
                    } else {
                        None
                    },
                },
            }
        }
    } else {
        None
    }
}

/// Advances over JSON whitespace.
fn skip_ws_exec(s: &Vec<u8>, i: usize) -> (r: usize)
    requires
        i <= s@.len(),
    ensures
        r == skip_ws(s@, i as int),
        i <= r <= s@.len(),
{
    let mut j = i;
    while j < s.len() && (s[j] == 0x20 || s[j] == 0x09 || s[j] == 0x0a || s[j] == 0x0d)
        invariant
            i <= j <= s@.len(),
            skip_ws(s@, i as int) == skip_ws(s@, j as int),
        decreases s@.len() - j,
    {
        j += 1;
    }
    j
}

/// The value of one hexadecimal digit, if `b` is one.
fn hex_digit_val(b: u8) -> (r: Option<u8>)
    ensures
        r matches Some(v) ==> is_hex_digit(b) && v == hex_val(b),
        r is None ==> !is_hex_digit(b),
{
    if 0x30 <= b && b <= 0x39 {
        Some(b - 0x30)
    } else if 0x41 <= b && b <= 0x46 {
        Some(b - 0x41 + 10)
    } else if 0x61 <= b && b <= 0x66 {
        Some(b - 0x61 + 10)
    } else {
        None
    }
}

/// Reads four hexadecimal digits starting at `i` as one number.
fn hex4_exec(s: &Vec<u8>, i: usize) -> (r: Option<u32>)
    ensures
        r matches Some(n) ==> hex4(s@, i as int) == Some(n as int) && n < 0x10000,
        r is None ==> hex4(s@, i as int) is None,
{
    if s.len() >= 4 && i <= s.len() - 4 {
        let a = hex_digit_val(s[i]);
        let b = hex_digit_val(s[i + 1]);
        let c = hex_digit_val(s[i + 2]);
        let d = hex_digit_val(s[i + 3]);
        match (a, b, c, d) {
            (Some(a), Some(b), Some(c), Some(d)) => {
                let n: u32 = 0x1000 * (a as u32) + 0x100 * (b as u32) + 0x10 * (c as u32) + (
                d as u32);
                Some(n)
            },
            _ => None,
        }
    } else {
        None
    }
}

/// Appends the UTF-8 encoding of the code point `c`.
fn push_utf8(out: &mut Vec<u8>, c: u32)
    requires
        c < 0x110000,
    ensures
        final(out)@ == old(out)@ + utf8_of(c as int),
{
    if c < 0x80 {
        out.push(c as u8);
        assert(old(out)@.push((c as int) as u8) =~= old(out)@ + utf8_of(c as int));
    } else if c < 0x800 {
        assert(c / 0x40 < 0x20 && c % 0x40 < 0x40) by (nonlinear_arith)
            requires
                c < 0x800,
        ;
        out.push((0xc0 + c / 0x40) as u8);
        out.push((0x80 + c % 0x40) as u8);
        assert(out@ =~= old(out)@ + utf8_of(c as int));
    } else if c < 0x10000 {
        assert(c / 0x1000 < 0x10 && (c / 0x40) % 0x40 < 0x40 && c % 0x40 < 0x40)
            by (nonlinear_arith)
            requires
                c < 0x10000,
        ;
        out.push((0xe0 + c / 0x1000) as u8);
        out.push((0x80 + (c / 0x40) % 0x40) as u8);
        out.push((0x80 + c % 0x40) as u8);
        assert(out@ =~= old(out)@ + utf8_of(c as int));
    } else {
        assert(c / 0x40000 < 0x5 && (c / 0x1000) % 0x40 < 0x40 && (c / 0x40) % 0x40 < 0x40 && c
            % 0x40 < 0x40) by (nonlinear_arith)
            requires
                c < 0x110000,
        ;
        out.push((0xf0 + c / 0x40000) as u8);
        out.push((0x80 + (c / 0x1000) % 0x40) as u8);
        out.push((0x80 + (c / 0x40) % 0x40) as u8);
        out.push((0x80 + c % 0x40) as u8);
        assert(out@ =~= old(out)@ + utf8_of(c as int));
    }
}

/// What a single-character escape stands for, executably.
fn simple_escape_exec(e: u8) -> (r: Option<u8>)
    ensures
        r == simple_escape(e),
{
    if e == 0x22 {
        Some(0x22)
    } else if e == 0x5c {
        Some(0x5c)
    } else if e == 0x2f {
        Some(0x2f)
    } else if e == 0x62 {
        Some(0x08)
    } else if e == 0x66 {
        Some(0x0c)
    } else if e == 0x6e {
        Some(0x0a)
    } else if e == 0x72 {
        Some(0x0d)
    } else if e == 0x74 {
        Some(0x09)
    } else {
        None
    }
}

/// Scans the body of a string literal from `start` (just past the opening
/// quote), unescaping as it goes.
fn parse_string_body_exec(s: &Vec<u8>, start: usize) -> (r: Option<(Vec<u8>, usize)>)
    requires
        start <= s@.len(),
    ensures
        r matches Some(p) ==> parse_string_body(s@, start as int) == Some((p.0@, p.1 as int))
            && start < p.1 <= s@.len(),
        r is None ==> parse_string_body(s@, start as int) is None,
{
    let mut acc: Vec<u8> = Vec::new();
    let mut i = start;
    loop
        invariant
            start <= i <= s@.len(),
            parse_string_body(s@, start as int) == (match parse_string_body(s@, i as int) {
                None => None::<(Seq<u8>, int)>,
                Some((rest, k)) => Some((acc@ + rest, k)),
            }),
        decreases s@.len() - i,
    {
        if i >= s.len() {
            return None;
        }
        let b = s[i];
        if b == 0x22 {
            proof {
                assert(acc@ + Seq::<u8>::empty() =~= acc@);
            }
            return Some((acc, i + 1));
        } else if b == 0x5c {
            if i + 1 >= s.len() {
                return None;
            }
            let e = s[i + 1];
            if e == 0x75 {
                match hex4_exec(s, i + 2) {
                    None => {
                        return None;
                    },
                    Some(n1) => {
                        if 0xdc00 <= n1 && n1 < 0xe000 {
                            return None;
                        } else if 0xd800 <= n1 && n1 < 0xdc00 {
                            if s.len() >= 8 && i <= s.len() - 8 && s[i + 6] == 0x5c && s[i + 7]
                                == 0x75 {
                                match hex4_exec(s, i + 8) {
                                    None => {
                                        return None;
                                    },
                                    Some(n2) => {
                                        if 0xdc00 <= n2 && n2 < 0xe000 {
                                            let c: u32 = 0x10000 + 0x400 * (n1 - 0xd800) + (n2
                                                - 0xdc00);
                                            proof {
                                                let rest_opt = parse_string_body(
                                                    s@,
                                                    i + 12 as int,
                                                );
                                                if rest_opt is Some {
                                                    let (rest2, k2) = rest_opt.unwrap();
                                                    assert(acc@ + (utf8_of(c as int) + rest2) =~= (
                                                    acc@ + utf8_of(c as int)) + rest2);
                                                }
                                            }
                                            push_utf8(&mut acc, c);
                                            i += 12;
                                        } else {
                                            return None;
                                        }
                                    },
                                }
                            } else {
                                return None;
                            }
                        } else {
                            proof {
                                let rest_opt = parse_string_body(s@, i + 6 as int);
                                if rest_opt is Some {
                                    let (rest2, k2) = rest_opt.unwrap();
                                    assert(acc@ + (utf8_of(n1 as int) + rest2) =~= (acc@ + utf8_of(
                                        n1 as int,
                                    )) + rest2);
                                }
                            }
                            push_utf8(&mut acc, n1);
                            i += 6;
                        }
                    },
                }
            } else {
                match simple_escape_exec(e) {
                    None => {
                        return None;
                    },
                    Some(x) => {
                        proof {
                            let rest_opt = parse_string_body(s@, i + 2 as int);
                            if rest_opt is Some {
                                let (rest2, k2) = rest_opt.unwrap();
                                assert(acc@ + (seq![x] + rest2) =~= acc@.push(x) + rest2);
                            }
                        }
                        acc.push(x);
                        i += 2;
                    },
                }
            }
        } else if b < 0x20 {
            return None;
        } else {
            proof {
                let rest_opt = parse_string_body(s@, i + 1 as int);
                if rest_opt is Some {
                    let (rest2, k2) = rest_opt.unwrap();
                    assert(acc@ + (seq![b] + rest2) =~= acc@.push(b) + rest2);
                }
            }
            acc.push(b);
            i += 1;
        }
    }
}

/// The views of a list of byte vectors, element by element.
pub open spec fn views_of(v: Seq<Vec<u8>>) -> Seq<Seq<u8>> {
    v.map_values(|x: Vec<u8>| x@)
}

/// Parses a string literal whose opening quote stands at `i`.
fn parse_string_exec(s: &Vec<u8>, i: usize) -> (r: Option<(Vec<u8>, usize)>)
    requires
        i <= s@.len(),
    ensures
        r matches Some(p) ==> parse_string(s@, i as int) == Some((p.0@, p.1 as int)) && i < p.1
            <= s@.len(),
        r is None ==> parse_string(s@, i as int) is None,
{
    if i < s.len() && s[i] == 0x22 {
        parse_string_body_exec(s, i + 1)
    } else {
        None
    }
}

/// Parses the whole data file. Returns the reasons in order, or `None`
/// exactly when the bytes are not a JSON array of strings.
pub fn parse_reasons(s: &Vec<u8>) -> (r: Option<Vec<Vec<u8>>>)
    ensures
        r matches Some(v) ==> parse_reasons_spec(s@) == Some(views_of(v@)),
        r is None ==> parse_reasons_spec(s@) is None,
{
    let i = skip_ws_exec(s, 0);
    if !(i < s.len() && s[i] == 0x5b) {
        return None;
    }
    let j = skip_ws_exec(s, i + 1);
    if j < s.len() && s[j] == 0x5d {
        if skip_ws_exec(s, j + 1) == s.len() {
            let out: Vec<Vec<u8>> = Vec::new();
            proof {
                assert(views_of(out@) =~= Seq::<Seq<u8>>::empty());
            }
            return Some(out);
        } else {
            return None;
        }
    }
    match parse_string_exec(s, j) {
        None => None,
        Some((e0, m)) => {
            let mut out: Vec<Vec<u8>> = Vec::new();
            proof {
                let ghost ev = e0@;
                let rest_opt = parse_rest(s@, m as int);
                if rest_opt is Some {
                    let (rest, t) = rest_opt.unwrap();
                    assert(seq![ev].add(rest) =~= seq![ev] + rest);
                }
            }
            out.push(e0);
            proof {
                assert(views_of(out@) =~= seq![out@[0]@]);
            }
            let mut pos = m;
            loop
                invariant
                    pos <= s@.len(),
                    parse_reasons_spec(s@) == (match parse_rest(s@, pos as int) {
                        None => None::<Seq<Seq<u8>>>,
                        Some((rest, t)) => if skip_ws(s@, t) == s@.len() {
                            Some(views_of(out@) + rest)
                        } else {
                            None::<Seq<Seq<u8>>>
                        },
                    }),
                decreases s@.len() - pos,
            {
                let jj = skip_ws_exec(s, pos);
                if jj >= s.len() {
                    return None;
                }
                if s[jj] == 0x5d {
                    let t = skip_ws_exec(s, jj + 1);
                    if t == s.len() {
                        proof {
                            assert(views_of(out@) + Seq::<Seq<u8>>::empty() =~= views_of(out@));
                        }
                        return Some(out);
                    } else {
                        return None;
                    }
                } else if s[jj] == 0x2c {
                    let kk = skip_ws_exec(s, jj + 1);
                    match parse_string_exec(s, kk) {
                        None => {
                            return None;
                        },
                        Some((e, m2)) => {
                            proof {
                                let ghost ev = e@;
                                let rest_opt = parse_rest(s@, m2 as int);
                                if rest_opt is Some {
                                    let (rest2, t2) = rest_opt.unwrap();
                                    assert(seq![ev].add(rest2) =~= seq![ev] + rest2);
                                    assert(views_of(out@) + (seq![ev] + rest2) =~= (views_of(out@)
                                        + seq![ev]) + rest2);
                                    assert(views_of(out@.push(e)) =~= views_of(out@) + seq![ev]);
                                }
                            }
                            out.push(e);
                            pos = m2;
                        },
                    }
                } else {
                    return None;
                }
            }
        },
    }
}

} // verus!
