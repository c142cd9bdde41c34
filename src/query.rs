//! Turning an acronym into a wildcard search query.
use vstd::prelude::*;
use crate::text::{is_alnum, is_space, char_is_alnum, char_is_space, push_char};

verus! {

/// A character that survives into the query.
pub open spec fn kept_in_query(c: char) -> bool {
    is_alnum(c) || is_space(c)
}

/// Each kept character followed by `*` and a space; others dropped.
pub open spec fn expand(s: Seq<char>) -> Seq<char>
    decreases s.len(),
{
    if s.len() == 0 {
        Seq::empty()
    } else if kept_in_query(s.last()) {
        expand(s.drop_last()) + seq![s.last(), '*', ' ']
    } else {
        expand(s.drop_last())
    }
}

/// The query for an acronym: its expansion without the one trailing space.
pub open spec fn query_of(s: Seq<char>) -> Seq<char> {
    let e = expand(s);
    if e.len() > 0 {
        e.drop_last()
    } else {
        e
    }
}

/// Builds the catalog search query for an acronym: `"V:D:C."` gives
/// `"V* D* C*"`.
pub fn build_query(acronym: &str) -> (r: String)
    ensures
        r@ == query_of(acronym@),
{
    let n = acronym.unicode_len();
    let mut out = String::new();
    let mut i: usize = 0;
    proof {
        assert(acronym@.take(0) =~= Seq::<char>::empty());
    }
    while i < n
        invariant
            n == acronym@.len(),
            0 <= i <= n,
            out@ == expand(acronym@.take(i as int)),
        decreases n - i,
    {
        let c = acronym.get_char(i);
        proof {
            assert(acronym@.take(i + 1).drop_last() =~= acronym@.take(i as int));
            assert(acronym@.take(i + 1).last() == c);
        }
        if char_is_alnum(c) || char_is_space(c) {
            let ghost before = out@;
            push_char(&mut out, c);
            push_char(&mut out, '*');
            push_char(&mut out, ' ');
            proof {
                assert(out@ =~= before + seq![c, '*', ' ']);
            }
        }
        i = i + 1;
    }
    proof {
        assert(acronym@.take(n as int) =~= acronym@);
    }
    if n > 0 && out.unicode_len() > 0 {
        let m = out.unicode_len();
        let trimmed = out.as_str().substring_char(0, m - 1);
        trimmed.to_string()
    } else {
        proof {
            if n == 0 {
                assert(expand(acronym@) == Seq::<char>::empty());
            }
        }
        out
    }
}

proof fn lemma_expand_chars(s: Seq<char>)
    ensures
        forall|i: int|
            0 <= i < expand(s).len() ==> {
                let c = #[trigger] expand(s)[i];
                kept_in_query(c) || c == '*'
            },
    decreases s.len(),
{
    if s.len() > 0 {
        assert(is_space(' '));
        let p = s.drop_last();
        lemma_expand_chars(p);
        if kept_in_query(s.last()) {
            let t = seq![s.last(), '*', ' '];
            assert forall|i: int| 0 <= i < expand(s).len() implies {
                let c = #[trigger] expand(s)[i];
                kept_in_query(c) || c == '*'
            } by {
                if i < expand(p).len() {
                    assert(expand(s)[i] == expand(p)[i]);
                } else {
                    assert(expand(s)[i] == t[i - expand(p).len()]);
                }
            }
        }
    }
}

/// Every character of a query is a letter, a digit, whitespace or `*`.
pub proof fn lemma_query_charset(acronym: Seq<char>)
    ensures
        forall|i: int|
            0 <= i < query_of(acronym).len() ==> {
                let c = #[trigger] query_of(acronym)[i];
                is_alnum(c) || is_space(c) || c == '*'
            },
{
    lemma_expand_chars(acronym);
    assert(is_space(' '));
    let e = expand(acronym);
    if e.len() > 0 {
        assert forall|i: int| 0 <= i < query_of(acronym).len() implies {
            let c = #[trigger] query_of(acronym)[i];
            is_alnum(c) || is_space(c) || c == '*'
        } by {
            assert(query_of(acronym)[i] == e[i]);
        }
    }
}

} // verus!
