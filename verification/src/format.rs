//! Data-format definitions and utilities.
//!
//! This module holds the identity constants for the embedded records, and
//! the renderer that turns a text payload into the assembly listing which
//! places that payload in the dedicated object-file section.

use vstd::prelude::*;

pub mod deps_file;
pub mod json;
pub mod spdx;
pub mod yaml;

verus! {

/// The two representations an embedded record can take: one list of
/// YAML documents, or one SPDX-subset document per contributing unit.
#[derive(Debug)]
pub enum EsstraFormat {
    Yaml(Vec<crate::format::yaml::EsstraFormat>),
    Spdx(Vec<crate::format::spdx::SpdxV3Root>),
}

pub const ESSTRA_TOOL_NAME: &'static str = "ESSTRA Core";

pub const ESSTRA_TOOL_VERSION: &'static str = "0.4.0";

/// The escape expansion of one payload character inside an `.ascii`
/// directive: backslash, double quote and horizontal tab are escaped,
/// everything else is kept as it is.
pub open spec fn esc_asm_char(c: char) -> Seq<char> {
    if c == '\\' {
        seq!['\\', '\\']
    } else if c == '"' {
        seq!['\\', '"']
    } else if c == '\t' {
        seq!['\\', 't']
    } else {
        seq![c]
    }
}

/// The escape expansion of a whole line.
pub open spec fn spec_escape_asm(s: Seq<char>) -> Seq<char>
    decreases s.len(),
{
    if s.len() == 0 {
        Seq::empty()
    } else {
        esc_asm_char(s[0]) + spec_escape_asm(s.drop_first())
    }
}

pub proof fn lemma_escape_asm_push(s: Seq<char>, c: char)
    ensures
        spec_escape_asm(s.push(c)) == spec_escape_asm(s) + esc_asm_char(c),
    decreases s.len(),
{
    if s.len() == 0 {
        assert(s.push(c).drop_first() =~= Seq::<char>::empty());
        assert(s.push(c)[0] == c);
        assert(spec_escape_asm(s.push(c)) == esc_asm_char(c) + spec_escape_asm(
            s.push(c).drop_first(),
        ));
        assert(spec_escape_asm(s.push(c)) =~= spec_escape_asm(s) + esc_asm_char(c));
    } else {
        assert(s.push(c).drop_first() =~= s.drop_first().push(c));
        lemma_escape_asm_push(s.drop_first(), c);
        assert(spec_escape_asm(s.push(c)) =~= spec_escape_asm(s) + esc_asm_char(c));
    }
}

/// Escape one line of payload text for an `.ascii` directive.
///
/// The input is expected to be a single line; line breaks in it are not
/// escaped and would end up verbatim in the listing.
pub fn escape_for_asm(data: &str) -> (r: String)
    ensures
        r@ == spec_escape_asm(data@),
{
    let n = data.unicode_len();
    let mut out = String::new();
    let mut i: usize = 0;
    proof {
        assert(data@.take(0) =~= Seq::<char>::empty());
    }
    while i < n
        invariant
            n == data@.len(),
            i <= n,
            out@ == spec_escape_asm(data@.take(i as int)),
        decreases n - i,
    {
        let c = data.get_char(i);
        if c == '\\' {
            out.push('\\');
            out.push('\\');
        } else if c == '"' {
            out.push('\\');
            out.push('"');
        } else if c == '\t' {
            out.push('\\');
            out.push('t');
        } else {
            out.push(c);
        }
        proof {
            lemma_escape_asm_push(data@.take(i as int), data@[i as int]);
            assert(data@.take(i + 1) =~= data@.take(i as int).push(data@[i as int]));
            assert(out@ =~= spec_escape_asm(data@.take(i + 1)));
        }
        i += 1;
    }
    proof {
        assert(data@.take(n as int) =~= data@);
    }
    out
}

/// Number of characters in `s` before the first line feed (all of `s`
/// if it has none).
pub open spec fn line_len(s: Seq<char>) -> nat
    decreases s.len(),
{
    if s.len() == 0 {
        0
    } else if s[0] == '\n' {
        0
    } else {
        1 + line_len(s.drop_first())
    }
}

pub proof fn lemma_line_len_at(s: Seq<char>, k: int)
    requires
        0 <= k <= s.len(),
        forall|m: int| 0 <= m < k ==> s[m] != '\n',
        k < s.len() ==> s[k] == '\n',
        k == s.len() ==> forall|m: int| 0 <= m < s.len() ==> s[m] != '\n',
    ensures
        line_len(s) == k,
    decreases s.len(),
{
    if s.len() == 0 {
    } else if s[0] == '\n' {
    } else {
        lemma_line_len_at(s.drop_first(), k - 1);
    }
}

/// A line with a trailing carriage return stripped.
pub open spec fn strip_cr(l: Seq<char>) -> Seq<char> {
    if l.len() > 0 && l[l.len() - 1] == '\r' {
        l.drop_last()
    } else {
        l
    }
}

/// The lines of a text, split at line feeds, each with at most one
/// trailing carriage return removed; a final line ending is optional.
pub open spec fn spec_lines(s: Seq<char>) -> Seq<Seq<char>>
    decreases s.len(),
{
    if s.len() == 0 {
        Seq::empty()
    } else {
        let n = line_len(s);
        if n < s.len() {
            seq![strip_cr(s.take(n as int))] + spec_lines(s.skip(n as int + 1))
        } else {
            seq![strip_cr(s)]
        }
    }
}

/// The `.ascii` directive embedding one (already split) payload line.
pub open spec fn spec_asm_line(l: Seq<char>) -> Seq<char> {
    "\t.ascii \""@ + spec_escape_asm(l) + "\\n\"\n"@
}

pub open spec fn spec_asm_lines(ls: Seq<Seq<char>>) -> Seq<char>
    decreases ls.len(),
{
    if ls.len() == 0 {
        Seq::empty()
    } else {
        spec_asm_line(ls[0]) + spec_asm_lines(ls.drop_first())
    }
}

/// The full embedding listing for a text payload: a section-open marker,
/// one `.ascii` directive per payload line (with an explicit line feed
/// appended to each), and a section-close marker.
pub open spec fn spec_asm_listing(data: Seq<char>) -> Seq<char> {
    "\t.pushsection .esstra\n"@ + spec_asm_lines(spec_lines(data)) + "\t.popsection\n"@
}

/// Render string data as the assembly listing that embeds it in the
/// dedicated section of the object being produced.
pub fn process_data_for_asm(data: &str) -> (r: String)
    ensures
        r@ == spec_asm_listing(data@),
{
    let n = data.unicode_len();
    let mut res = String::new();
    res.append("\t.pushsection .esstra\n");
    let mut pos: usize = 0;
    proof {
        assert(data@.skip(0) =~= data@);
    }
    while pos < n
        invariant
            n == data@.len(),
            pos <= n,
            pos < n ==> (pos == 0 || data@[pos as int - 1] == '\n'),
            res@ + spec_asm_lines(spec_lines(data@.skip(pos as int))) == "\t.pushsection .esstra\n"@
                + spec_asm_lines(spec_lines(data@)),
        decreases n - pos,
    {
        let ghost suffix = data@.skip(pos as int);
        let line_end = match find_line_end(data, pos) {
            Some(j) => j,
            None => n,
        };
        proof {
            lemma_line_len_at(suffix, line_end - pos);
        }
        let body_end = if line_end > pos && data.get_char(line_end - 1) == '\r' {
            line_end - 1
        } else {
            line_end
        };
        let line = data.substring_char(pos, body_end);
        proof {
            assert(suffix.take(line_end - pos) =~= data@.subrange(pos as int, line_end as int));
            assert(strip_cr(suffix.take(line_end - pos)) =~= data@.subrange(
                pos as int,
                body_end as int,
            ));
        }
        let esc = escape_for_asm(line);
        res.append("\t.ascii \"");
        res.append(esc.as_str());
        res.append("\\n\"\n");
        if line_end == n {
            proof {
                assert(strip_cr(suffix) =~= strip_cr(suffix.take(line_end - pos)));
                assert(spec_lines(suffix) =~= seq![strip_cr(suffix.take(line_end - pos))]);
                assert(spec_lines(suffix).drop_first() =~= Seq::<Seq<char>>::empty());
                assert(res@ + spec_asm_lines(Seq::<Seq<char>>::empty()) == "\t.pushsection .esstra\n"@
                    + spec_asm_lines(spec_lines(data@)));
            }
            pos = n;
        } else {
            proof {
                assert(spec_lines(suffix) =~= seq![strip_cr(suffix.take(line_end - pos))]
                    + spec_lines(suffix.skip(line_end - pos + 1)));
                assert(spec_lines(suffix).drop_first() =~= spec_lines(
                    suffix.skip(line_end - pos + 1),
                ));
                crate::text::lemma_skip_skip(data@, pos as int, line_end - pos + 1);
                assert(suffix.skip(line_end - pos + 1) =~= data@.skip(line_end + 1));
            }
            pos = line_end + 1;
        }
    }
    proof {
        assert(data@.skip(n as int) =~= Seq::<char>::empty());
    }
    res.append("\t.popsection\n");
    res
}

/// Find the next line feed at or after `pos`.
fn find_line_end(data: &str, pos: usize) -> (r: Option<usize>)
    requires
        pos <= data@.len(),
    ensures
        match r {
            Some(j) => pos <= j < data@.len() && data@[j as int] == '\n' && forall|k: int|
                pos <= k < j ==> data@[k] != '\n',
            None => forall|k: int| pos <= k < data@.len() ==> data@[k] != '\n',
        },
{
    crate::text::find_char_from(data, pos, '\n')
}

} // verus!
