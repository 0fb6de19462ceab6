//! The key-value extractor: locates a key marker such as `--method` in
//! the cleaned text and extracts the value belonging to it.
//!
//! The extraction is positional.  When the key marker is the very first
//! thing in the text, the value runs up to the next `--` terminator and
//! extraction fails without one.  When other content precedes the
//! marker, the value is the whole remainder of the text after the
//! marker — the key is assumed to be the last field of the file.

use vstd::prelude::*;
use vstd::string::StrSliceExecFns;

use crate::text::find_sub;
use crate::text::find_sub_in;
use crate::text::is_space;
use crate::text::trim_spec;
use crate::text::trim_str;

verus! {

/// The two-character token that ends a field when the key marker opens
/// the text.
pub open spec fn terminator() -> Seq<char> {
    "--"@
}

/// The value associated with the key marker `key` in `text`, or `None`
/// when the marker is absent or its required terminator is missing.
///
/// With the marker at the very start of `text`, the value is the
/// trimmed text between the marker and the first following `--`
/// terminator (`None` without one).  With the marker anywhere else, the
/// value is the whole trimmed remainder of the text after the marker.
pub open spec fn parse_key_spec(text: Seq<char>, key: Seq<char>) -> Option<Seq<char>> {
    match find_sub(text, key) {
        None => None,
        Some(i) => {
            if i == 0 {
                let rest = trim_spec(text.skip(key.len() as int));
                match find_sub(rest, terminator()) {
                    None => None,
                    Some(t) => Some(trim_spec(rest.take(t))),
                }
            } else {
                Some(trim_spec(text.skip(i + key.len())))
            }
        },
    }
}

/// Extracts the value belonging to the key marker `key` from `input`,
/// as [`parse_key_spec`] describes.
pub fn parse_key<'a>(input: &'a str, key: &str) -> (r: Option<&'a str>)
    requires
        key@.len() >= 1,
        !is_space(key@[0]),
        !is_space(key@[key@.len() - 1]),
    ensures
        r is Some <==> parse_key_spec(input@, key@) is Some,
        r matches Some(v) ==> parse_key_spec(input@, key@) == Some(v@),
{
    let n = input.unicode_len();
    let m = key.unicode_len();
    match find_sub_in(input, key) {
        None => None,
        Some(i) => {
            proof {
                crate::text::lemma_find_sub_correct(input@, key@);
                assert(input@.subrange(i as int, i + m as int) == key@);
            }
            if i == 0 {
                let tail = input.substring_char(m, n);
                proof {
                    assert(tail@ =~= input@.skip(m as int));
                }
                let rest = trim_str(tail);
                match find_sub_in(rest, "--") {
                    None => {
                        proof {
                            assert("--"@ == terminator());
                        }
                        None
                    },
                    Some(t) => {
                        proof {
                            reveal_strlit("--");
                            crate::text::lemma_find_sub_correct(rest@, "--"@);
                            assert(t + 2 <= rest@.len());
                        }
                        let piece = rest.substring_char(0, t);
                        proof {
                            assert(piece@ =~= rest@.take(t as int));
                        }
                        Some(trim_str(piece))
                    },
                }
            } else {
                let tail = input.substring_char(i + m, n);
                proof {
                    assert(tail@ =~= input@.skip(i + m as int));
                }
                Some(trim_str(tail))
            }
        },
    }
}

} // verus!
