//! The matching rule, and the choice of a catalog entry for an acronym.
use vstd::prelude::*;
use crate::text::{split_spaces, lemma_split_spaces_len, upper_of, to_upper, push_char};

verus! {

/// No word in `words` is empty.
pub open spec fn all_nonempty(words: Seq<Seq<char>>) -> bool {
    forall|i: int| 0 <= i < words.len() ==> #[trigger] words[i].len() > 0
}

/// The first character of each word.
pub open spec fn initials(words: Seq<Seq<char>>) -> Seq<char> {
    words.map_values(|w: Seq<char>| w[0])
}

/// An already uppercased title fits `acronym`: every word between single
/// spaces is non-empty, and their first characters spell `acronym`.
pub open spec fn initials_match(upper_title: Seq<char>, acronym: Seq<char>) -> bool {
    let words = split_spaces(upper_title);
    all_nonempty(words) && initials(words) == acronym
}

/// The matching rule on a title as given: it is uppercased first.
pub open spec fn title_matches(title: Seq<char>, acronym: Seq<char>) -> bool {
    initials_match(upper_of(title), acronym)
}

/// Decides the matching rule on a title that is already uppercased.
pub fn matches_upper(upper_title: &str, acronym: &str) -> (r: bool)
    ensures
        r == initials_match(upper_title@, acronym@),
{
    let n = upper_title.unicode_len();
    let mut inits = String::new();
    let mut cur_empty = true;
    let mut ok = true;
    let mut i: usize = 0;
    proof {
        assert(upper_title@.take(0) =~= Seq::<char>::empty());
    }
    while i < n
        invariant
            n == upper_title@.len(),
            0 <= i <= n,
            ({
                let ws = split_spaces(upper_title@.take(i as int));
                &&& ws.len() >= 1
                &&& cur_empty == (ws.last().len() == 0)
                &&& ok == all_nonempty(ws.drop_last())
                &&& ok ==> inits@ == initials(ws.drop_last()) + (if cur_empty {
                    Seq::<char>::empty()
                } else {
                    seq![ws.last()[0]]
                })
            }),
        decreases n - i,
    {
        let c = upper_title.get_char(i);
        let ghost s = upper_title@.take(i as int);
        let ghost s2 = upper_title@.take(i + 1);
        let ghost ws = split_spaces(s);
        proof {
            assert(s2.drop_last() =~= s);
            assert(s2.last() == c);
            lemma_split_spaces_len(s2);
        }
        if c == ' ' {
            if cur_empty {
                ok = false;
                proof {
                    let ws2 = split_spaces(s2);
                    assert(ws2.drop_last() =~= ws);
                    assert(ws2.drop_last()[ws.len() - 1].len() == 0);
                }
            } else {
                proof {
                    let ws2 = split_spaces(s2);
                    assert(ws2.drop_last() =~= ws);
                    assert(ws =~= ws.drop_last().push(ws.last()));
                    assert(initials(ws) =~= initials(ws.drop_last()) + seq![ws.last()[0]]);
                    if ok {
                        assert(all_nonempty(ws));
                    }
                    if all_nonempty(ws) {
                        assert(all_nonempty(ws.drop_last()));
                    }
                }
            }
            cur_empty = true;
        } else {
            if cur_empty {
                push_char(&mut inits, c);
            }
            proof {
                let ws2 = split_spaces(s2);
                assert(ws2.drop_last() =~= ws.drop_last());
                assert(ws2.last() =~= ws.last().push(c));
            }
            cur_empty = false;
        }
        i = i + 1;
    }
    proof {
        assert(upper_title@.take(n as int) =~= upper_title@);
    }
    let ghost ws = split_spaces(upper_title@);
    if ok && !cur_empty {
        let expected = acronym.to_string();
        let r = inits == expected;
        proof {
            assert(ws =~= ws.drop_last().push(ws.last()));
            assert(initials(ws) =~= initials(ws.drop_last()) + seq![ws.last()[0]]);
            assert(all_nonempty(ws));
        }
        r
    } else {
        proof {
            if !ok {
                let j = choose|j: int| 0 <= j < ws.drop_last().len() && ws.drop_last()[j].len() == 0;
                assert(ws[j].len() == 0);
            } else {
                assert(ws[ws.len() - 1].len() == 0);
            }
        }
        false
    }
}

/// The matching rule: the title, uppercased, has `acronym` as the initials
/// of its space-separated words. A title with an empty word (a leading,
/// trailing or doubled space) matches nothing.
pub fn matches(title: &str, acronym: &str) -> (r: bool)
    ensures
        r == title_matches(title@, acronym@),
{
    let upper = to_upper(title);
    matches_upper(upper.as_str(), acronym)
}

/// The text of each `(artist, title)` pair.
pub open spec fn pairs_view(v: Seq<(String, String)>) -> Seq<(Seq<char>, Seq<char>)> {
    v.map_values(|e: (String, String)| (e.0@, e.1@))
}

/// The entries whose title fits `acronym`, in the order given.
pub open spec fn kept(entries: Seq<(Seq<char>, Seq<char>)>, acronym: Seq<char>) -> Seq<(Seq<char>, Seq<char>)> {
    entries.filter(|e: (Seq<char>, Seq<char>)| title_matches(e.1, acronym))
}

/// The first entry whose title fits `acronym`, if any.
pub open spec fn first_kept(entries: Seq<(Seq<char>, Seq<char>)>, acronym: Seq<char>) -> Option<(Seq<char>, Seq<char>)> {
    let k = kept(entries, acronym);
    if k.len() > 0 {
        Some(k[0])
    } else {
        None
    }
}

/// The text of an optional pair.
pub open spec fn opt_pair_view(o: Option<(String, String)>) -> Option<(Seq<char>, Seq<char>)> {
    match o {
        Some(e) => Some((e.0@, e.1@)),
        None => None,
    }
}

/// Keeps the `(artist, title)` pairs whose title fits `acronym` (compared as
/// given: callers pass it uppercased), in the order given.
pub fn parse(results: &Vec<(String, String)>, acronym: &str) -> (r: Vec<(String, String)>)
    ensures
        pairs_view(r@) == kept(pairs_view(results@), acronym@),
{
    let mut out: Vec<(String, String)> = Vec::new();
    let mut i: usize = 0;
    proof {
        reveal(Seq::filter);
        assert(pairs_view(results@).take(0) =~= Seq::<(Seq<char>, Seq<char>)>::empty());
        assert(pairs_view(out@) =~= Seq::<(Seq<char>, Seq<char>)>::empty());
    }
    while i < results.len()
        invariant
            0 <= i <= results@.len(),
            pairs_view(out@) == kept(pairs_view(results@).take(i as int), acronym@),
        decreases results@.len() - i,
    {
        let ghost pv = pairs_view(results@);
        let artist = &results[i].0;
        let title = &results[i].1;
        let m = matches(title.as_str(), acronym);
        proof {
            reveal(Seq::filter);
            assert(pv.take(i + 1).drop_last() =~= pv.take(i as int));
            assert(pv.take(i + 1).last() == (artist@, title@));
        }
        if m {
            let ghost before = out@;
            out.push((artist.clone(), title.clone()));
            proof {
                assert(pairs_view(out@) =~= pairs_view(before).push((artist@, title@)));
            }
        }
        i = i + 1;
    }
    proof {
        assert(pairs_view(results@).take(results@.len() as int) =~= pairs_view(results@));
    }
    out
}

/// Resolves an acronym against catalog candidates: the acronym is
/// uppercased, and the first candidate, in the order given, whose title fits
/// it is chosen.
pub fn resolve(candidates: &Vec<(String, String)>, acronym: &str) -> (r: Option<(String, String)>)
    ensures
        opt_pair_view(r) == first_kept(pairs_view(candidates@), upper_of(acronym@)),
{
    let upper = to_upper(acronym);
    let found = parse(candidates, upper.as_str());
    if found.len() > 0 {
        let e = &found[0];
        proof {
            assert(pairs_view(found@)[0] == (e.0@, e.1@));
        }
        Some((e.0.clone(), e.1.clone()))
    } else {
        None
    }
}

/// First-match policy: a resolved entry is a candidate whose title fits the
/// acronym, and no earlier candidate fits it; nothing is resolved only when
/// no candidate fits.
pub proof fn lemma_first_match_policy(entries: Seq<(Seq<char>, Seq<char>)>, acronym: Seq<char>)
    ensures
        first_kept(entries, acronym) is None <==> (forall|j: int|
            0 <= j < entries.len() ==> !title_matches(#[trigger] entries[j].1, acronym)),
        first_kept(entries, acronym) matches Some(e) ==> exists|k: int|
            0 <= k < entries.len() && entries[k] == e && title_matches(e.1, acronym)
                && forall|j: int| 0 <= j < k ==> !title_matches(#[trigger] entries[j].1, acronym),
    decreases entries.len(),
{
    reveal(Seq::filter);
    if entries.len() > 0 {
        let init = entries.drop_last();
        lemma_first_match_policy(init, acronym);
        let k0 = kept(init, acronym);
        assert(forall|j: int| 0 <= j < init.len() ==> init[j] == entries[j]);
        if title_matches(entries.last().1, acronym) {
            assert(kept(entries, acronym) == k0.push(entries.last()));
            if k0.len() == 0 {
                assert(first_kept(entries, acronym) == Some(entries.last()));
                let k = entries.len() - 1;
                assert(entries[k] == entries.last());
            }
        } else {
            assert(kept(entries, acronym) == k0);
            if first_kept(entries, acronym) is None {
                assert forall|j: int| 0 <= j < entries.len() implies !title_matches(
                    #[trigger] entries[j].1,
                    acronym,
                ) by {
                    if j < init.len() {
                        assert(init[j] == entries[j]);
                    }
                }
            }
        }
    }
}

/// Resolution is a function of the candidates and the acronym: the same
/// candidates and acronym always resolve to the same entry.
pub proof fn lemma_resolve_deterministic(
    c1: Seq<(Seq<char>, Seq<char>)>,
    c2: Seq<(Seq<char>, Seq<char>)>,
    a1: Seq<char>,
    a2: Seq<char>,
)
    requires
        c1 == c2,
        a1 == a2,
    ensures
        first_kept(c1, upper_of(a1)) == first_kept(c2, upper_of(a2)),
{
}

} // verus!
