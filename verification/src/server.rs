//! What the query endpoint decides before it asks the store: which kind of
//! answer a request wants, and under which text it looks a record up.

use vstd::prelude::*;
use vstd::std_specs::iter::IteratorSpec;

verus! {

/// What a request asks for.
#[derive(Clone, Copy, Debug, PartialEq, Eq, Structural)]
pub enum Route {
    /// The best-scoring tokens of the record with the given text.
    TopTokens,
    /// The token ids and scores of the record with the given text.
    Record,
    /// Nothing that can be answered: the request names no text.
    BadRequest,
}

/// The kind of answer for a request that has, or has not, a text and a
/// number of tokens.
pub fn route(has_text: bool, has_top_k: bool) -> (kind: Route)
    ensures
        kind == if !has_text {
            Route::BadRequest
        } else if has_top_k {
            Route::TopTokens
        } else {
            Route::Record
        },
{
    if !has_text {
        Route::BadRequest
    } else if has_top_k {
        Route::TopTokens
    } else {
        Route::Record
    }
}

/// Whether `c` is kept when quotes are removed.
pub open spec fn is_not_quote(c: char) -> bool {
    c != '"'
}

/// `String::push`. Trusted: the character is appended to the string.
#[verifier::external_body]
fn push_char(out: &mut String, c: char)
    ensures
        final(out)@ == old(out)@.push(c),
{
    out.push(c)
}

/// `text` without its double quotes: every one of them is removed, not
/// only the first and the last.
pub fn remove_leading_and_trailing_quotes(text: String) -> (stripped: String)
    ensures
        stripped@ == text@.filter(|c: char| is_not_quote(c)),
{
    let ghost all = text@;
    let ghost keep = |c: char| is_not_quote(c);
    let mut stripped = String::new();
    let mut rest = text.as_str().chars();
    let ghost mut seen: int = 0;
    proof {
        broadcast use vstd::string::group_string_axioms;

        reveal(Seq::filter);
        assert(all.take(0).filter(keep) =~= Seq::<char>::empty());
        assert(all.skip(0) =~= all);
    }
    loop
        invariant
            all == text@,
            keep == |c: char| is_not_quote(c),
            0 <= seen <= all.len(),
            rest.remaining() == all.skip(seen),
            rest.decrease() is Some,
            rest.obeys_prophetic_iter_laws(),
            stripped@ == all.take(seen).filter(keep),
        ensures
            stripped@ == all.filter(keep),
        decreases all.len() - seen,
    {
        let ghost before = rest;
        match rest.next() {
            None => {
                proof {
                    broadcast use vstd::string::group_string_axioms;

                    assert(all.take(seen) =~= all);
                }
                break ;
            },
            Some(c) => {
                proof {
                    broadcast use vstd::string::group_string_axioms;

                    reveal(Seq::filter);
                    assert(c == all[seen]);
                    assert(all.take(seen + 1).drop_last() =~= all.take(seen));
                    assert(all.skip(seen).drop_first() =~= all.skip(seen + 1));
                }
                if c != '"' {
                    push_char(&mut stripped, c);
                }
                proof {
                    seen = seen + 1;
                }
            },
        }
    }
    stripped
}

} // verus!
