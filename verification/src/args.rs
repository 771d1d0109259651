//! Inspection of compiler command-line arguments: recognizing an option
//! by name, in both its `--opt=value` and `--opt value` spellings, and
//! splitting a `name=path` pair.

use vstd::prelude::*;
use crate::text::has_prefix;

verus! {

/// How one argument relates to a looked-for option name.
pub enum ArgParseResult {
    /// The argument is not this option.
    NoMatch,
    /// The argument is `<option>=<value>`; the value is carried here.
    Specified(String),
    /// The argument is exactly the option name; its value is the next
    /// argument.
    ReadNext,
}

/// Recognize the option `get` in the argument `arg`.
pub fn parse_arg(arg: &str, get: &str) -> (r: ArgParseResult)
    ensures
        (match r {
            ArgParseResult::Specified(d) => has_prefix(arg@, get@ + seq!['=']) && d@ == arg@.skip(
                get@.len() as int + 1,
            ),
            ArgParseResult::ReadNext => !has_prefix(arg@, get@ + seq!['=']) && arg@ == get@,
            ArgParseResult::NoMatch => !has_prefix(arg@, get@ + seq!['=']) && arg@ != get@,
        }),
{
    let mut pre = String::new();
    pre.append(get);
    pre.append("=");
    proof {
        reveal_strlit("=");
        assert("="@ =~= seq!['=']);
        assert(arg@.skip(0) =~= arg@);
    }
    if crate::text::match_lit(arg, 0, pre.as_str()) {
        let k = get.unicode_len();
        let n = arg.unicode_len();
        assert(k + 1 <= n);
        let data = arg.substring_char(k + 1, n);
        proof {
            assert(data@ =~= arg@.skip(get@.len() as int + 1));
        }
        ArgParseResult::Specified(String::from_str(data))
    } else if crate::text::str_eq(arg, get) {
        ArgParseResult::ReadNext
    } else {
        ArgParseResult::NoMatch
    }
}

/// Split an `--extern`-style `name=path` argument at its first equals
/// sign.  Without one, the whole argument is the name and there is no
/// path.
pub fn split_extern_arg(arg: &str) -> (r: (String, Option<String>))
    ensures
        (match r.1 {
            Some(path) => r.0@.len() < arg@.len() && arg@[r.0@.len() as int] == '=' && (forall|
                m: int,
            |
                0 <= m < r.0@.len() ==> arg@[m] != '=') && r.0@ == arg@.take(r.0@.len() as int)
                && path@ == arg@.skip(r.0@.len() as int + 1),
            None => r.0@ == arg@ && (forall|m: int| 0 <= m < arg@.len() ==> arg@[m] != '='),
        }),
{
    let n = arg.unicode_len();
    match crate::text::find_char_from(arg, 0, '=') {
        Some(j) => {
            let name = arg.substring_char(0, j);
            let path = arg.substring_char(j + 1, n);
            proof {
                assert(name@ =~= arg@.take(j as int));
                assert(name@.len() == j);
            }
            (String::from_str(name), Some(String::from_str(path)))
        },
        None => (String::from_str(arg), None),
    }
}

} // verus!
