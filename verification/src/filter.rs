//! The rule that decides which extracted links become nodes.

use vstd::prelude::*;

verus! {

/// `pat` stands in `s` at position `i`.
pub open spec fn occurs_at(s: Seq<char>, pat: Seq<char>, i: int) -> bool {
    0 <= i && i + pat.len() <= s.len() && s.subrange(i, i + pat.len()) == pat
}

/// `pat` stands somewhere in `s`.
pub open spec fn has_substring(s: Seq<char>, pat: Seq<char>) -> bool {
    exists|i: int| occurs_at(s, pat, i)
}

/// A link is kept when it holds "www" and none of "gif", "dtd", "svg",
/// anywhere in it and in exactly this case.
pub open spec fn link_accepted(s: Seq<char>) -> bool {
    &&& has_substring(s, seq!['w', 'w', 'w'])
    &&& !has_substring(s, seq!['g', 'i', 'f'])
    &&& !has_substring(s, seq!['d', 't', 'd'])
    &&& !has_substring(s, seq!['s', 'v', 'g'])
}

/// The links of `candidates` that are kept, in their order.
pub open spec fn accepted_links(candidates: Seq<Seq<char>>) -> Seq<Seq<char>> {
    candidates.filter(|s: Seq<char>| link_accepted(s))
}

/// The texts of a sequence of strings.
pub open spec fn texts(v: Seq<String>) -> Seq<Seq<char>> {
    Seq::new(v.len(), |i: int| v[i]@)
}

/// The characters of a string, in a vector.
pub fn chars_of(s: &str) -> (found: Vec<char>)
    ensures
        found@ == s@,
{
    let mut found: Vec<char> = Vec::new();
    for c in rest: s.chars()
        invariant
            rest.seq() == s@,
            found@ == s@.take(rest.index() as int),
    {
        found.push(c);
        assert(found@ =~= s@.take(rest.index() + 1));
    }
    assert(found@ =~= s@);
    found
}

/// Whether `pat` stands in `text` at position `at`.
pub fn matches_at(text: &Vec<char>, pat: &Vec<char>, at: usize) -> (found: bool)
    requires
        at + pat@.len() <= text@.len(),
    ensures
        found == occurs_at(text@, pat@, at as int),
{
    let size: usize = text.len();
    let mut j: usize = 0;
    while j < pat.len()
        invariant
            j <= pat@.len(),
            at + pat@.len() <= text@.len(),
            text@.len() == size,
            forall|m: int| 0 <= m < j ==> text@[at + m] == pat@[m],
        decreases pat@.len() - j,
    {
        if text[at + j] != pat[j] {
            assert(text@.subrange(at as int, at + pat@.len())[j as int] != pat@[j as int]);
            return false;
        }
        j += 1;
    }
    assert(text@.subrange(at as int, at + pat@.len()) =~= pat@);
    true
}

/// Whether `pat` stands somewhere in `text`.
pub fn contains_chars(text: &Vec<char>, pat: &Vec<char>) -> (found: bool)
    ensures
        found == has_substring(text@, pat@),
{
    if pat.len() > text.len() {
        return false;
    }
    let last: usize = text.len() - pat.len();
    let mut at: usize = 0;
    loop
        invariant
            at <= last,
            last + pat@.len() == text@.len(),
            forall|i: int| 0 <= i < at ==> !occurs_at(text@, pat@, i),
        decreases last - at,
    {
        if matches_at(text, pat, at) {
            return true;
        }
        if at == last {
            return false;
        }
        at += 1;
    }
}

/// Decides whether an extracted link becomes a node.
pub fn link_filter(link: &str) -> (keep: bool)
    ensures
        keep == link_accepted(link@),
{
    proof {
        reveal_strlit("www");
        reveal_strlit("gif");
        reveal_strlit("dtd");
        reveal_strlit("svg");
        assert("www"@ =~= seq!['w', 'w', 'w']);
        assert("gif"@ =~= seq!['g', 'i', 'f']);
        assert("dtd"@ =~= seq!['d', 't', 'd']);
        assert("svg"@ =~= seq!['s', 'v', 'g']);
    }
    let text = chars_of(link);
    contains_chars(&text, &chars_of("www")) && !contains_chars(&text, &chars_of("gif"))
        && !contains_chars(&text, &chars_of("dtd")) && !contains_chars(&text, &chars_of("svg"))
}

/// Keeps the accepted links of `candidates`, in their order.
pub fn keep_accepted(candidates: &Vec<String>) -> (kept: Vec<String>)
    ensures
        texts(kept@) == accepted_links(texts(candidates@)),
{
    let ghost pred = |s: Seq<char>| link_accepted(s);
    let mut kept: Vec<String> = Vec::new();
    let mut i: usize = 0;
    proof {
        reveal(Seq::filter);
        assert(texts(candidates@).take(0) =~= Seq::<Seq<char>>::empty());
        assert(texts(kept@) =~= Seq::<Seq<char>>::empty());
    }
    while i < candidates.len()
        invariant
            i <= candidates.len(),
            pred == (|s: Seq<char>| link_accepted(s)),
            texts(kept@) == texts(candidates@).take(i as int).filter(pred),
        decreases candidates.len() - i,
    {
        let ghost before = texts(kept@);
        let ghost prefix = texts(candidates@).take(i as int);
        let keep = link_filter(candidates[i].as_str());
        if keep {
            kept.push(candidates[i].clone());
        }
        proof {
            let next = texts(candidates@).take(i + 1);
            assert(next.drop_last() =~= prefix);
            assert(next.last() == candidates@[i as int]@);
            reveal(Seq::filter);
            if keep {
                assert(texts(kept@) =~= before.push(candidates@[i as int]@));
            } else {
                assert(texts(kept@) =~= before);
            }
        }
        i += 1;
    }
    proof {
        assert(texts(candidates@).take(i as int) =~= texts(candidates@));
    }
    kept
}

} // verus!
