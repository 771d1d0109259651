//! JSON string escaping and the string-body parser shared by the JSON
//! document codecs.
//!
//! The escape set matches the canonical JSON renderer the sidecar files
//! are written with: quote, backslash and the named control characters
//! get two-character escapes, every other control character a `\u00..`
//! escape, and all remaining characters stand for themselves.

use vstd::prelude::*;

verus! {

pub open spec fn is_ctl(c: char) -> bool {
    (c as u32) < 0x20
}

/// Lower-case hex digit for a value below 16.
pub open spec fn hex_char(v: int) -> char {
    if v == 0 {
        '0'
    } else if v == 1 {
        '1'
    } else if v == 2 {
        '2'
    } else if v == 3 {
        '3'
    } else if v == 4 {
        '4'
    } else if v == 5 {
        '5'
    } else if v == 6 {
        '6'
    } else if v == 7 {
        '7'
    } else if v == 8 {
        '8'
    } else if v == 9 {
        '9'
    } else if v == 10 {
        'a'
    } else if v == 11 {
        'b'
    } else if v == 12 {
        'c'
    } else if v == 13 {
        'd'
    } else if v == 14 {
        'e'
    } else if v == 15 {
        'f'
    } else {
        '0'
    }
}

/// Value of a hex digit, or -1 for any other character.
pub open spec fn hex_val(c: char) -> int {
    if c == '0' {
        0
    } else if c == '1' {
        1
    } else if c == '2' {
        2
    } else if c == '3' {
        3
    } else if c == '4' {
        4
    } else if c == '5' {
        5
    } else if c == '6' {
        6
    } else if c == '7' {
        7
    } else if c == '8' {
        8
    } else if c == '9' {
        9
    } else if c == 'a' || c == 'A' {
        10
    } else if c == 'b' || c == 'B' {
        11
    } else if c == 'c' || c == 'C' {
        12
    } else if c == 'd' || c == 'D' {
        13
    } else if c == 'e' || c == 'E' {
        14
    } else if c == 'f' || c == 'F' {
        15
    } else {
        -1
    }
}

/// The escape expansion of one character inside a JSON string literal.
pub open spec fn esc_json_char(c: char) -> Seq<char> {
    if c == '"' {
        seq!['\\', '"']
    } else if c == '\\' {
        seq!['\\', '\\']
    } else if c == '\n' {
        seq!['\\', 'n']
    } else if c == '\r' {
        seq!['\\', 'r']
    } else if c == '\t' {
        seq!['\\', 't']
    } else if c == '\u{8}' {
        seq!['\\', 'b']
    } else if c == '\u{c}' {
        seq!['\\', 'f']
    } else if is_ctl(c) {
        seq!['\\', 'u', '0', '0', hex_char((c as u32) as int / 16), hex_char((c as u32) as int % 16)]
    } else {
        seq![c]
    }
}

/// The escaped body of a JSON string literal holding `s`.
#[verifier::opaque]
pub open spec fn json_escaped(s: Seq<char>) -> Seq<char>
    decreases s.len(),
{
    if s.len() == 0 {
        Seq::empty()
    } else {
        esc_json_char(s[0]) + json_escaped(s.drop_first())
    }
}

pub proof fn lemma_json_escaped_push(s: Seq<char>, c: char)
    ensures
        json_escaped(s.push(c)) == json_escaped(s) + esc_json_char(c),
    decreases s.len(),
{
    reveal(json_escaped);
    if s.len() == 0 {
        assert(s.push(c).drop_first() =~= Seq::<char>::empty());
        assert(s.push(c)[0] == c);
        assert(json_escaped(s.push(c).drop_first()) == Seq::<char>::empty());
        assert(json_escaped(s.push(c)) == esc_json_char(c) + Seq::<char>::empty());
        assert(json_escaped(s) == Seq::<char>::empty());
        assert(esc_json_char(c) + Seq::<char>::empty() =~= Seq::<char>::empty() + esc_json_char(
            c,
        ));
    } else {
        assert(s.push(c).drop_first() =~= s.drop_first().push(c));
        assert(s.push(c)[0] == s[0]);
        lemma_json_escaped_push(s.drop_first(), c);
        assert(json_escaped(s.push(c)) == esc_json_char(s[0]) + (json_escaped(s.drop_first())
            + esc_json_char(c)));
        assert(esc_json_char(s[0]) + (json_escaped(s.drop_first()) + esc_json_char(c))
            =~= (esc_json_char(s[0]) + json_escaped(s.drop_first())) + esc_json_char(c));
    }
}

/// The character denoted by a two-character escape, if the second
/// character is one of the short escape codes.
pub open spec fn unesc_short(e: char) -> Option<char> {
    if e == '"' {
        Some('"')
    } else if e == '\\' {
        Some('\\')
    } else if e == '/' {
        Some('/')
    } else if e == 'n' {
        Some('\n')
    } else if e == 'r' {
        Some('\r')
    } else if e == 't' {
        Some('\t')
    } else if e == 'b' {
        Some('\u{8}')
    } else if e == 'f' {
        Some('\u{c}')
    } else {
        None
    }
}

/// Parse the body of a JSON string literal, after its opening quote,
/// up to and including its closing quote.  The result is the decoded
/// text and the number of characters consumed.  `\u` escapes are
/// accepted in the `\u00..` form the escaper produces.
pub open spec fn sp_jstr(s: Seq<char>) -> Option<(Seq<char>, nat)>
    decreases s.len(),
{
    if s.len() == 0 {
        None
    } else if s[0] == '"' {
        Some((Seq::empty(), 1))
    } else if s[0] == '\\' {
        if s.len() < 2 {
            None
        } else if s[1] == 'u' {
            if s.len() < 6 {
                None
            } else if s[2] == '0' && s[3] == '0' && hex_val(s[4]) >= 0 && hex_val(s[5]) >= 0 {
                let c = ((16 * hex_val(s[4]) + hex_val(s[5])) as u8) as char;
                match sp_jstr(s.skip(6)) {
                    Some(p) => Some((seq![c] + p.0, p.1 + 6)),
                    None => None,
                }
            } else {
                None
            }
        } else {
            match unesc_short(s[1]) {
                Some(c) => match sp_jstr(s.skip(2)) {
                    Some(p) => Some((seq![c] + p.0, p.1 + 2)),
                    None => None,
                },
                None => None,
            }
        }
    } else if is_ctl(s[0]) {
        None
    } else {
        match sp_jstr(s.skip(1)) {
            Some(p) => Some((seq![s[0]] + p.0, p.1 + 1)),
            None => None,
        }
    }
}

/// Whatever text is escaped into a string literal is recovered exactly by
/// the string-body parser, which then stops right after the closing quote.
pub proof fn lemma_jstr_round_trip(x: Seq<char>, rest: Seq<char>)
    ensures
        sp_jstr(json_escaped(x) + seq!['"'] + rest) == Some::<(Seq<char>, nat)>(
            (x, (json_escaped(x).len() + 1) as nat),
        ),
    decreases x.len(),
{
    reveal(json_escaped);
    let s = json_escaped(x) + seq!['"'] + rest;
    if x.len() == 0 {
        assert(s[0] == '"');
        assert(sp_jstr(s) == Some::<(Seq<char>, nat)>((Seq::empty(), 1nat)));
        assert(x =~= Seq::<char>::empty());
    } else {
        let c = x[0];
        let e = esc_json_char(c);
        let tail = json_escaped(x.drop_first());
        assert(json_escaped(x) == e + tail);
        let k = e.len() as int;
        assert(s.skip(k) =~= tail + seq!['"'] + rest);
        lemma_jstr_round_trip(x.drop_first(), rest);
        assert(forall|i: int| 0 <= i < k ==> s[i] == e[i]);
        if c == '"' || c == '\\' || c == '\n' || c == '\r' || c == '\t' || c == '\u{8}' || c
            == '\u{c}' {
            assert(s[0] == '\\' && s[1] == e[1]);
            assert(unesc_short(e[1]) == Some(c));
            assert(sp_jstr(s) == Some::<(Seq<char>, nat)>(
                (seq![c] + x.drop_first(), (tail.len() + 1 + 2) as nat),
            ));
            assert(seq![c] + x.drop_first() =~= x);
        } else if is_ctl(c) {
            let v = (c as u32) as int;
            assert(0 <= v < 32);
            assert(s[0] == '\\' && s[1] == 'u' && s[2] == '0' && s[3] == '0');
            assert(s[4] == hex_char(v / 16) && s[5] == hex_char(v % 16));
            assert(hex_val(hex_char(v / 16)) == v / 16);
            assert(hex_val(hex_char(v % 16)) == v % 16);
            assert(16 * (v / 16) + v % 16 == v);
            assert(16 * hex_val(s[4]) + hex_val(s[5]) == v);
            let b = (16 * hex_val(s[4]) + hex_val(s[5])) as u8;
            assert(b as int == v);
            assert(c as u32 == b as u32);
            vstd::utf8::char_u32_cast(c, b as u32);
            assert((b as char) == c);
            assert(((16 * hex_val(s[4]) + hex_val(s[5])) as u8) as char == c);
            assert(sp_jstr(s) == Some::<(Seq<char>, nat)>(
                (seq![c] + x.drop_first(), (tail.len() + 1 + 6) as nat),
            ));
            assert(seq![c] + x.drop_first() =~= x);
        } else {
            assert(s[0] == c);
            assert(sp_jstr(s) == Some::<(Seq<char>, nat)>(
                (seq![c] + x.drop_first(), (tail.len() + 1 + 1) as nat),
            ));
            assert(seq![c] + x.drop_first() =~= x);
        }
    }
}

/// Append the escaped body of a JSON string literal for `s` to `out`.
pub fn push_json_escaped(out: &mut String, s: &str)
    ensures
        final(out)@ == old(out)@ + json_escaped(s@),
{
    let n = s.unicode_len();
    let mut i: usize = 0;
    proof {
        reveal(json_escaped);
        assert(s@.take(0) =~= Seq::<char>::empty());
        assert(out@ + json_escaped(s@.take(0)) =~= out@);
    }
    while i < n
        invariant
            n == s@.len(),
            i <= n,
            out@ == old(out)@ + json_escaped(s@.take(i as int)),
        decreases n - i,
    {
        let c = s.get_char(i);
        if c == '"' {
            out.push('\\');
            out.push('"');
        } else if c == '\\' {
            out.push('\\');
            out.push('\\');
        } else if c == '\n' {
            out.push('\\');
            out.push('n');
        } else if c == '\r' {
            out.push('\\');
            out.push('r');
        } else if c == '\t' {
            out.push('\\');
            out.push('t');
        } else if (c as u32) == 0x8 {
            proof {
                assert(c == '\u{8}');
            }
            out.push('\\');
            out.push('b');
        } else if (c as u32) == 0xc {
            proof {
                assert(c == '\u{c}');
            }
            out.push('\\');
            out.push('f');
        } else if (c as u32) < 0x20 {
            let v = c as u32;
            out.push('\\');
            out.push('u');
            out.push('0');
            out.push('0');
            out.push(hex_char_exec((v / 16) as u8));
            out.push(hex_char_exec((v % 16) as u8));
        } else {
            out.push(c);
        }
        proof {
            lemma_json_escaped_push(s@.take(i as int), s@[i as int]);
            assert(s@.take(i + 1) =~= s@.take(i as int).push(s@[i as int]));
            assert(out@ =~= old(out)@ + json_escaped(s@.take(i + 1)));
        }
        i += 1;
    }
    proof {
        assert(s@.take(n as int) =~= s@);
    }
}

/// Lower-case hex digit of a value below 16.
pub fn hex_char_exec(v: u8) -> (r: char)
    ensures
        r == hex_char(v as int),
{
    if v == 0 {
        '0'
    } else if v == 1 {
        '1'
    } else if v == 2 {
        '2'
    } else if v == 3 {
        '3'
    } else if v == 4 {
        '4'
    } else if v == 5 {
        '5'
    } else if v == 6 {
        '6'
    } else if v == 7 {
        '7'
    } else if v == 8 {
        '8'
    } else if v == 9 {
        '9'
    } else if v == 10 {
        'a'
    } else if v == 11 {
        'b'
    } else if v == 12 {
        'c'
    } else if v == 13 {
        'd'
    } else if v == 14 {
        'e'
    } else if v == 15 {
        'f'
    } else {
        '0'
    }
}

/// Value of a hex digit character.
pub fn hex_val_exec(c: char) -> (r: Option<u8>)
    ensures
        match r {
            Some(v) => hex_val(c) == v as int && v < 16,
            None => hex_val(c) < 0,
        },
{
    if c == '0' {
        Some(0)
    } else if c == '1' {
        Some(1)
    } else if c == '2' {
        Some(2)
    } else if c == '3' {
        Some(3)
    } else if c == '4' {
        Some(4)
    } else if c == '5' {
        Some(5)
    } else if c == '6' {
        Some(6)
    } else if c == '7' {
        Some(7)
    } else if c == '8' {
        Some(8)
    } else if c == '9' {
        Some(9)
    } else if c == 'a' || c == 'A' {
        Some(10)
    } else if c == 'b' || c == 'B' {
        Some(11)
    } else if c == 'c' || c == 'C' {
        Some(12)
    } else if c == 'd' || c == 'D' {
        Some(13)
    } else if c == 'e' || c == 'E' {
        Some(14)
    } else if c == 'f' || c == 'F' {
        Some(15)
    } else {
        None
    }
}

/// Parse a JSON string-literal body starting at character position `i`
/// of `s` (just past the opening quote).  On success the decoded text is
/// returned together with the position just past the closing quote.
pub fn parse_json_string_body(s: &str, i: usize) -> (r: Option<(String, usize)>)
    requires
        i <= s@.len(),
    ensures
        match (r, sp_jstr(s@.skip(i as int))) {
            (Some(p), Some(q)) => p.0@ == q.0 && p.1 == i + q.1 && p.1 <= s@.len(),
            (None, None) => true,
            _ => false,
        },
{
    let n = s.unicode_len();
    let mut out = String::new();
    let mut p: usize = i;
    loop
        invariant
            n == s@.len(),
            i <= p <= n,
            sp_jstr(s@.skip(i as int)) == (match sp_jstr(s@.skip(p as int)) {
                Some(q) => Some((out@ + q.0, ((p - i) as nat + q.1) as nat)),
                None => None::<(Seq<char>, nat)>,
            }),
        decreases n - p,
    {
        let ghost suf = s@.skip(p as int);
        if p == n {
            assert(suf.len() == 0);
            return None;
        }
        let c = s.get_char(p);
        assert(c == suf[0]);
        if c == '"' {
            proof {
                assert(sp_jstr(suf) == Some::<(Seq<char>, nat)>((Seq::empty(), 1nat)));
                assert(out@ + Seq::<char>::empty() =~= out@);
            }
            return Some((out, p + 1));
        } else if c == '\\' {
            if p + 1 == n {
                assert(suf.len() < 2);
                return None;
            }
            let e = s.get_char(p + 1);
            assert(e == suf[1]);
            if e == 'u' {
                if n - p < 6 {
                    assert(suf.len() < 6);
                    return None;
                }
                let c2 = s.get_char(p + 2);
                let c3 = s.get_char(p + 3);
                let h1 = s.get_char(p + 4);
                let h2 = s.get_char(p + 5);
                assert(c2 == suf[2] && c3 == suf[3] && h1 == suf[4] && h2 == suf[5]);
                if c2 != '0' || c3 != '0' {
                    return None;
                }
                let v1 = match hex_val_exec(h1) {
                    Some(v) => v,
                    None => {
                        return None;
                    },
                };
                let v2 = match hex_val_exec(h2) {
                    Some(v) => v,
                    None => {
                        return None;
                    },
                };
                let dc = ((16 * v1 + v2) as u8) as char;
                assert(dc == ((16 * hex_val(suf[4]) + hex_val(suf[5])) as u8) as char);
                let ghost out0 = out@;
                out.push(dc);
                proof {
                    crate::text::lemma_skip_skip(s@, p as int, 6);
                    assert(suf.skip(6) =~= s@.skip(p + 6));
                    assert(sp_jstr(suf) == (match sp_jstr(s@.skip(p + 6)) {
                        Some(q) => Some((seq![dc] + q.0, (q.1 + 6) as nat)),
                        None => None::<(Seq<char>, nat)>,
                    }));
                    lemma_parse_step(s@, i as int, p as int, 6, out0, dc);
                }
                p += 6;
            } else {
                let dc = match unescape_short_exec(e) {
                    Some(d) => d,
                    None => {
                        return None;
                    },
                };
                let ghost out0 = out@;
                out.push(dc);
                proof {
                    crate::text::lemma_skip_skip(s@, p as int, 2);
                    assert(suf.skip(2) =~= s@.skip(p + 2));
                    assert(sp_jstr(suf) == (match sp_jstr(s@.skip(p + 2)) {
                        Some(q) => Some((seq![dc] + q.0, (q.1 + 2) as nat)),
                        None => None::<(Seq<char>, nat)>,
                    }));
                    lemma_parse_step(s@, i as int, p as int, 2, out0, dc);
                }
                p += 2;
            }
        } else if (c as u32) < 0x20 {
            assert(is_ctl(suf[0]));
            return None;
        } else {
            let ghost out0 = out@;
            out.push(c);
            proof {
                crate::text::lemma_skip_skip(s@, p as int, 1);
                assert(suf.skip(1) =~= s@.skip(p + 1));
                lemma_parse_step(s@, i as int, p as int, 1, out0, c);
            }
            p += 1;
        }
    }
}

/// One parsing step: if the suffix at `p` parses as one decoded character
/// `c` taking `k` input characters followed by whatever the suffix at
/// `p + k` parses as, then moving `c` into the accumulator keeps the
/// loop relation between position `i` and the current position.
proof fn lemma_parse_step(s: Seq<char>, i: int, p: int, k: int, acc: Seq<char>, c: char)
    requires
        0 <= i <= p,
        0 < k,
        p + k <= s.len(),
        sp_jstr(s.skip(p)) == (match sp_jstr(s.skip(p + k)) {
            Some(q) => Some((seq![c] + q.0, (q.1 + k) as nat)),
            None => None::<(Seq<char>, nat)>,
        }),
        sp_jstr(s.skip(i)) == (match sp_jstr(s.skip(p)) {
            Some(q) => Some((acc + q.0, ((p - i) as nat + q.1) as nat)),
            None => None::<(Seq<char>, nat)>,
        }),
    ensures
        sp_jstr(s.skip(i)) == (match sp_jstr(s.skip(p + k)) {
            Some(q) => Some((acc.push(c) + q.0, ((p + k - i) as nat + q.1) as nat)),
            None => None::<(Seq<char>, nat)>,
        }),
{
    match sp_jstr(s.skip(p + k)) {
        Some(q) => {
            assert(acc + (seq![c] + q.0) =~= acc.push(c) + q.0);
        },
        None => {
        },
    }
}

/// The character denoted by a short escape code.
fn unescape_short_exec(e: char) -> (r: Option<char>)
    ensures
        r == unesc_short(e),
{
    if e == '"' {
        Some('"')
    } else if e == '\\' {
        Some('\\')
    } else if e == '/' {
        Some('/')
    } else if e == 'n' {
        Some('\n')
    } else if e == 'r' {
        Some('\r')
    } else if e == 't' {
        Some('\t')
    } else if e == 'b' {
        Some('\u{8}')
    } else if e == 'f' {
        Some('\u{c}')
    } else {
        None
    }
}

} // verus!
