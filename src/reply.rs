//! Reading a request out of a message, and writing the reply to it.
use vstd::prelude::*;
use crate::text::{split_spaces, lemma_split_spaces_len, upper_of, to_upper, push_char};
use crate::matching::opt_pair_view;
use crate::catalog::CatalogError;

verus! {

/// The text of each string.
pub open spec fn strings_view(v: Seq<String>) -> Seq<Seq<char>> {
    v.map_values(|s: String| s@)
}

/// The line announcing that `acronym` is `title` by `artist`.
pub open spec fn bullet_line(acronym: Seq<char>, title: Seq<char>, artist: Seq<char>) -> Seq<char> {
    "💿 **"@ + acronym + "** is **"@ + title + "** by "@ + artist
}

/// Each line followed by two spaces and two newlines.
pub open spec fn joined(lines: Seq<Seq<char>>) -> Seq<char>
    decreases lines.len(),
{
    if lines.len() == 0 {
        Seq::empty()
    } else {
        joined(lines.drop_last()) + lines.last() + "  \n\n"@
    }
}

/// The project links: usage, issue tracker and repository.
pub open spec fn footer_text() -> Seq<char> {
    "✍️ [Usage](https://github.com/aquelemiguel/itaots-reddit#usage)"@ + " | "@
        + "🐛 [Report issues](https://github.com/aquelemiguel/itaots-reddit/issues)"@ + " | "@
        + "⭐️ [GitHub](https://github.com/aquelemiguel/itaots-reddit)"@
}

/// The acronyms a message body asks for: the words after the first (the
/// mention), uppercased, in order and with repeats.
pub open spec fn requested(body: Seq<char>) -> Seq<Seq<char>> {
    split_spaces(body).drop_first().map_values(|w: Seq<char>| upper_of(w))
}

/// What the resolution of one acronym contributes: the entry when one was
/// found, nothing when none was or the catalog could not be asked.
pub open spec fn outcome_view(r: Result<Option<(String, String)>, CatalogError>) -> Option<(Seq<char>, Seq<char>)> {
    match r {
        Ok(o) => opt_pair_view(o),
        Err(_) => None,
    }
}

/// The reply lines for acronyms and the outcomes of their resolutions: one
/// line per resolved acronym, in the acronyms' order.
pub open spec fn lines_of(
    acronyms: Seq<Seq<char>>,
    outcomes: Seq<Option<(Seq<char>, Seq<char>)>>,
) -> Seq<Seq<char>>
    decreases acronyms.len(),
{
    if acronyms.len() == 0 || outcomes.len() == 0 {
        Seq::empty()
    } else {
        let rest = lines_of(acronyms.drop_last(), outcomes.drop_last());
        match outcomes.last() {
            Some(e) => rest.push(bullet_line(acronyms.last(), e.1, e.0)),
            None => rest,
        }
    }
}

/// Renders one resolved acronym: `💿 **SILY** is **Since I Left You** by The Avalanches`.
pub fn format_bulletpoint(pair: &(String, String), acronym: &str) -> (r: String)
    ensures
        r@ == bullet_line(acronym@, pair.1@, pair.0@),
{
    let mut s = "💿 **".to_string();
    s.append(acronym);
    s.append("** is **");
    s.append(pair.1.as_str());
    s.append("** by ");
    s.append(pair.0.as_str());
    s
}

/// Joins reply lines, each ended by `"  \n\n"`; no lines give the empty string.
pub fn format_reply(lines: &Vec<String>) -> (r: String)
    ensures
        r@ == joined(strings_view(lines@)),
{
    let mut s = String::new();
    let mut i: usize = 0;
    proof {
        assert(strings_view(lines@).take(0) =~= Seq::<Seq<char>>::empty());
    }
    while i < lines.len()
        invariant
            0 <= i <= lines@.len(),
            s@ == joined(strings_view(lines@).take(i as int)),
        decreases lines@.len() - i,
    {
        proof {
            let v = strings_view(lines@);
            assert(v.take(i + 1).drop_last() =~= v.take(i as int));
            assert(v.take(i + 1).last() == lines@[i as int]@);
        }
        s.append(lines[i].as_str());
        s.append("  \n\n");
        i = i + 1;
    }
    proof {
        assert(strings_view(lines@).take(lines@.len() as int) =~= strings_view(lines@));
    }
    s
}

/// The project links (usage, issue tracker, repository), separated by `" | "`.
pub fn get_footer() -> (r: String)
    ensures
        r@ == footer_text(),
{
    let mut s = "✍️ [Usage](https://github.com/aquelemiguel/itaots-reddit#usage)".to_string();
    s.append(" | ");
    s.append("🐛 [Report issues](https://github.com/aquelemiguel/itaots-reddit/issues)");
    s.append(" | ");
    s.append("⭐️ [GitHub](https://github.com/aquelemiguel/itaots-reddit)");
    s
}

/// The acronyms a message body asks for: split on single spaces, the first
/// word (the mention) dropped, the others uppercased, in order and with
/// repeats.
pub fn parse_request(body: &str) -> (r: Vec<String>)
    ensures
        strings_view(r@) == requested(body@),
{
    let n = body.unicode_len();
    let mut words: Vec<String> = Vec::new();
    let mut cur = String::new();
    let mut i: usize = 0;
    proof {
        assert(body@.take(0) =~= Seq::<char>::empty());
        assert(strings_view(words@).push(cur@) =~= split_spaces(Seq::<char>::empty()));
    }
    while i < n
        invariant
            n == body@.len(),
            0 <= i <= n,
            strings_view(words@).push(cur@) == split_spaces(body@.take(i as int)),
        decreases n - i,
    {
        let c = body.get_char(i);
        let ghost s2 = body@.take(i + 1);
        let ghost before = strings_view(words@);
        proof {
            assert(s2.drop_last() =~= body@.take(i as int));
            assert(s2.last() == c);
        }
        if c == ' ' {
            words.push(cur);
            cur = String::new();
            proof {
                assert(strings_view(words@) =~= before.push(split_spaces(body@.take(i as int)).last()));
                assert(strings_view(words@).push(cur@) =~= split_spaces(s2));
            }
        } else {
            push_char(&mut cur, c);
            proof {
                assert(strings_view(words@).push(cur@) =~= split_spaces(s2));
            }
        }
        i = i + 1;
    }
    words.push(cur);
    proof {
        assert(body@.take(n as int) =~= body@);
    }
    let ghost ws = strings_view(words@);
    let mut out: Vec<String> = Vec::new();
    let mut j: usize = 1;
    while j < words.len()
        invariant
            ws == strings_view(words@),
            ws == split_spaces(body@),
            1 <= j <= words@.len(),
            strings_view(out@) == ws.subrange(1, j as int).map_values(|w: Seq<char>| upper_of(w)),
        decreases words@.len() - j,
    {
        let u = to_upper(words[j].as_str());
        let ghost before = strings_view(out@);
        out.push(u);
        proof {
            assert(ws[j as int] == words@[j as int]@);
            assert(strings_view(out@) =~= before.push(upper_of(ws[j as int])));
            assert(ws.subrange(1, j + 1).map_values(|w: Seq<char>| upper_of(w))
                =~= ws.subrange(1, j as int).map_values(|w: Seq<char>| upper_of(w)).push(upper_of(ws[j as int])));
        }
        j = j + 1;
    }
    proof {
        assert(ws.subrange(1, ws.len() as int) =~= ws.drop_first());
    }
    out
}

/// The reply lines for a request: for each acronym whose resolution found an
/// entry, its line, in the acronyms' order; acronyms without an entry, or
/// whose resolution failed, give none.
pub fn reply_lines(
    acronyms: &Vec<String>,
    outcomes: &Vec<Result<Option<(String, String)>, CatalogError>>,
) -> (r: Vec<String>)
    requires
        acronyms@.len() == outcomes@.len(),
    ensures
        strings_view(r@) == lines_of(strings_view(acronyms@), outcomes@.map_values(|o| outcome_view(o))),
{
    let ghost av = strings_view(acronyms@);
    let ghost ov = outcomes@.map_values(|o| outcome_view(o));
    let mut out: Vec<String> = Vec::new();
    let mut i: usize = 0;
    proof {
        assert(av.take(0) =~= Seq::<Seq<char>>::empty());
    }
    while i < acronyms.len()
        invariant
            av == strings_view(acronyms@),
            ov == outcomes@.map_values(|o| outcome_view(o)),
            acronyms@.len() == outcomes@.len(),
            0 <= i <= acronyms@.len(),
            strings_view(out@) == lines_of(av.take(i as int), ov.take(i as int)),
        decreases acronyms@.len() - i,
    {
        proof {
            assert(av.take(i + 1).drop_last() =~= av.take(i as int));
            assert(ov.take(i + 1).drop_last() =~= ov.take(i as int));
            assert(av.take(i + 1).last() == acronyms@[i as int]@);
            assert(ov.take(i + 1).last() == outcome_view(outcomes@[i as int]));
        }
        match &outcomes[i] {
            Ok(Some(e)) => {
                let line = format_bulletpoint(e, acronyms[i].as_str());
                let ghost before = strings_view(out@);
                out.push(line);
                proof {
                    assert(strings_view(out@) =~= before.push(line@));
                }
            },
            _ => {},
        }
        i = i + 1;
    }
    proof {
        assert(av.take(acronyms@.len() as int) =~= av);
        assert(ov.take(acronyms@.len() as int) =~= ov);
    }
    out
}

/// The body to post for a request's lines: nothing when there are none (the
/// message is then only acknowledged); otherwise the joined lines.
pub fn reply_content(lines: &Vec<String>) -> (r: Option<String>)
    ensures
        lines@.len() == 0 <==> r is None,
        r matches Some(c) ==> c@ == joined(strings_view(lines@)),
{
    if lines.len() == 0 {
        None
    } else {
        Some(format_reply(lines))
    }
}

} // verus!
