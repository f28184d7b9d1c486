//! Whether a chat line is a JSON document, decided by `serde_json`.
use vstd::prelude::*;
use crate::text::{is_space, trim, trim_start, trim_end};

verus! {

/// Whether `text` is a JSON document that `serde_json` accepts as a
/// `serde_json::Value` (the outcome of `serde_json::from_str::<Value>`).
pub uninterp spec fn parses_as_json_value(text: Seq<char>) -> bool;

/// JSON's insignificant white space.
pub open spec fn is_json_space(c: char) -> bool {
    c == ' ' || c == '\n' || c == '\t' || c == '\r'
}

/// `t` without its leading JSON white space.
pub open spec fn skip_json_space(t: Seq<char>) -> Seq<char>
    decreases t.len(),
{
    if t.len() > 0 && is_json_space(t[0]) {
        skip_json_space(t.drop_first())
    } else {
        t
    }
}

/// The characters with which a JSON value can begin.
pub open spec fn can_start_json_value(c: char) -> bool {
    ||| c == 'n'
    ||| c == 't'
    ||| c == 'f'
    ||| c == '-'
    ||| c == '"'
    ||| c == '['
    ||| c == '{'
    ||| 48 <= (c as u32) <= 57
}

/// Calls `serde_json::from_str::<serde_json::Value>` and reports whether it
/// succeeded. Claimed: the answer is a function of the text alone, and the parser
/// refuses every text whose first character after JSON white space cannot begin a
/// value (the parser's `deserialize_any` refuses any other first byte).
#[verifier::external_body]
pub(crate) fn is_json_value(text: &str) -> (r: bool)
    ensures
        r == parses_as_json_value(text@),
        r ==> skip_json_space(text@).len() > 0 && can_start_json_value(skip_json_space(text@)[0]),
{
    serde_json::from_str::<serde_json::Value>(text).is_ok()
}

/// `trim_end` keeps a prefix of its argument.
pub proof fn lemma_trim_end_prefix(u: Seq<char>)
    ensures
        trim_end(u).len() <= u.len(),
        forall|i: int| 0 <= i < trim_end(u).len() ==> trim_end(u)[i] == u[i],
    decreases u.len(),
{
    if u.len() > 0 && is_space(u.last()) {
        lemma_trim_end_prefix(u.drop_last());
        assert forall|i: int| 0 <= i < trim_end(u).len() implies trim_end(u)[i] == u[i] by {
            assert(u.drop_last()[i] == u[i]);
        }
    }
}

/// A line whose trimmed form begins with `/` is never a JSON document, so every
/// chat command takes the command path.
pub proof fn lemma_slash_line_is_not_json(t: Seq<char>)
    requires
        trim(t).len() > 0,
        trim(t)[0] == '/',
    ensures
        !(skip_json_space(t).len() > 0 && can_start_json_value(skip_json_space(t)[0])),
    decreases t.len(),
{
    lemma_trim_end_prefix(trim_start(t));
    if t.len() > 0 && is_json_space(t[0]) {
        assert(is_space(t[0]));
        lemma_slash_line_is_not_json(t.drop_first());
    }
}

} // verus!
