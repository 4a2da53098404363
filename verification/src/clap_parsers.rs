//! Parsers for command-line argument values.

use vstd::prelude::*;

use crate::errors::Error;
use crate::text;
use vstd::string::StrSliceExecFns;

verus! {

/// The first position of `=` in the string, or its length when there is
/// none.
pub open spec fn spec_eq_index(s: Seq<char>) -> int
    decreases s.len(),
{
    if s.len() == 0 {
        0
    } else if s[0] == '=' {
        0
    } else {
        1 + spec_eq_index(s.drop_first())
    }
}

proof fn lemma_eq_index_at(s: Seq<char>, i: int)
    requires
        0 <= i <= s.len(),
        forall|j: int| 0 <= j < i ==> s[j] != '=',
        i == s.len() || s[i as int] == '=',
    ensures
        spec_eq_index(s) == i,
    decreases i,
{
    if i == 0 {
        if s.len() > 0 && s[0] != '=' {
            lemma_eq_index_positive(s.drop_first());
        }
    } else {
        let tail = s.drop_first();
        assert forall|j: int| 0 <= j < i - 1 implies tail[j] != '=' by {
            assert(tail[j] == s[j + 1]);
        }
        lemma_eq_index_at(tail, i - 1);
    }
}

proof fn lemma_eq_index_positive(s: Seq<char>)
    ensures
        spec_eq_index(s) >= 0,
    decreases s.len(),
{
    if s.len() > 0 && s[0] != '=' {
        lemma_eq_index_positive(s.drop_first());
    }
}

/// What the key/value argument parser returns: split at the first `=`
/// into a trimmed key and a trimmed value; without one, the whole trimmed
/// string is a key with no value, and a blank string is rejected.
pub open spec fn spec_kv_parse(s: Seq<char>) -> Result<(Seq<char>, Option<Seq<char>>), ()> {
    if spec_eq_index(s) < s.len() {
        Ok(
            (
                text::spec_trim(s.subrange(0, spec_eq_index(s))),
                Some(text::spec_trim(s.subrange(spec_eq_index(s) + 1, s.len() as int))),
            ),
        )
    } else if text::spec_trim(s).len() == 0 {
        Err(())
    } else {
        Ok((text::spec_trim(s), None))
    }
}

/// Parse a `KEY=VALUE` argument: the key and the value are trimmed; with
/// no `=` the whole (non-blank) argument is a key without a value.
pub fn kv_parser(value: &str) -> (r: Result<(String, Option<String>), Error>)
    ensures
        match r {
            Ok(kv) => spec_kv_parse(value@) == Ok::<_, ()>(
                (kv.0@, match kv.1 {
                    Some(v) => Some::<Seq<char>>(v@),
                    None => None::<Seq<char>>,
                }),
            ),
            Err(e) => spec_kv_parse(value@) == Err::<(Seq<char>, Option<Seq<char>>), ()>(())
                && e is ArgParse,
        },
{
    let len = value.unicode_len();
    let mut i: usize = 0;
    loop
        invariant
            0 <= i <= len,
            len == value@.len(),
            forall|j: int| 0 <= j < i ==> value@[j] != '=',
        ensures
            0 <= i <= len,
            forall|j: int| 0 <= j < i ==> value@[j] != '=',
            i == len || value@[i as int] == '=',
        decreases len - i,
    {
        if i == len {
            break ;
        }
        if value.get_char(i) == '=' {
            break ;
        }
        i = i + 1;
    }
    proof {
        lemma_eq_index_at(value@, i as int);
    }
    if i < len {
        let key_part = value.substring_char(0, i);
        let value_part = value.substring_char(i + 1, len);
        let key = text::trim_str(key_part).to_owned();
        let val = text::trim_str(value_part).to_owned();
        Ok((key, Some(val)))
    } else {
        let trimmed = text::trim_str(value);
        if trimmed.is_empty() {
            Err(Error::ArgParse("Invalid key, the syntax is `KEY(=VALUE)?`".to_owned()))
        } else {
            Ok((trimmed.to_owned(), None))
        }
    }
}

} // verus!
