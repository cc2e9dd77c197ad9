//! Removal of sign-off phrases that recognizers invent at the end of a clip.

use vstd::prelude::*;
use crate::text::{
    char_to_lowercase, chars_of, copy_range, lower_chars, split_words, string_of, trim, trim_chars,
    trim_end, trim_end_len, views, words,
};

verus! {

/// Sign-off phrases that recognizers tend to invent at the end of a clip,
/// grouped in families; both the families and the phrases within a family
/// are tried in this order.
pub open spec fn ending_families() -> Seq<Seq<Seq<char>>> {
    seq![
        seq!["thank you."@, "thank you!"@, "thank you"@],
        seq!["thanks."@, "thanks!"@, "thanks"@],
        seq!["you're welcome."@, "you're welcome!"@, "you're welcome"@],
        seq!["bye."@, "bye!"@, "bye bye."@, "bye bye!"@, "bye bye"@, "bye"@],
        seq!["goodbye."@, "goodbye!"@, "goodbye"@],
        seq!["see you."@, "see you!"@, "see you later."@, "see you later!"@, "see you later"@],
    ]
}

fn ending_table() -> (r: Vec<Vec<&'static str>>)
    ensures
        r@.len() == ending_families().len(),
        forall|i: int|
            0 <= i < r@.len() ==> (#[trigger] r@[i])@.len() == ending_families()[i].len(),
        forall|i: int, j: int|
            0 <= i < r@.len() && 0 <= j < r@[i]@.len() ==> (#[trigger] r@[i]@[j])@
                == ending_families()[i][j],
{
    vec![
        vec!["thank you.", "thank you!", "thank you"],
        vec!["thanks.", "thanks!", "thanks"],
        vec!["you're welcome.", "you're welcome!", "you're welcome"],
        vec!["bye.", "bye!", "bye bye.", "bye bye!", "bye bye", "bye"],
        vec!["goodbye.", "goodbye!", "goodbye"],
        vec!["see you.", "see you!", "see you later.", "see you later!", "see you later"],
    ]
}

pub open spec fn terminal(c: char) -> bool {
    c == '.' || c == '!' || c == '?'
}

/// The last entries of `lt`, each the lower-cased form of one character,
/// spell `p`, one character each.
pub open spec fn lowered_suffix(lt: Seq<Seq<char>>, p: Seq<char>) -> bool {
    p.len() <= lt.len() && forall|j: int|
        0 <= j < p.len() ==> lt[lt.len() - p.len() + j] == seq![#[trigger] p[j]]
}

/// `t` ends with `p`, each character of `t` there lower-casing to the
/// matching character of `p`.
pub open spec fn ends_with_ci(t: Seq<char>, p: Seq<char>) -> bool {
    lowered_suffix(t.map_values(|c: char| lower_chars(c)), p)
}

/// Removing one sign-off phrase `p` from the end of `t`: it must close the
/// text, and at least three words must precede it. A preceding text that
/// ends a sentence is kept as it is; otherwise it needs five words and gets
/// a period.
pub open spec fn strip_ending(t: Seq<char>, p: Seq<char>) -> Option<Seq<char>> {
    let te = trim_end(t);
    if ends_with_ci(te, p) {
        let before = trim(t.subrange(0, te.len() - p.len()));
        let n = words(before).len();
        if n >= 3 && terminal(before.last()) {
            Some(before)
        } else if n >= 5 {
            Some(before.push('.'))
        } else {
            None
        }
    } else {
        None
    }
}

/// The first phrase of a family that can be removed is removed.
pub open spec fn strip_family(t: Seq<char>, fam: Seq<Seq<char>>) -> Seq<char>
    decreases fam.len(),
{
    if fam.len() == 0 {
        t
    } else {
        match strip_ending(t, fam[0]) {
            Some(r) => r,
            None => strip_family(t, fam.drop_first()),
        }
    }
}

/// Each family in turn is given its chance on what the previous ones left.
pub open spec fn strip_families(t: Seq<char>, fams: Seq<Seq<Seq<char>>>) -> Seq<char>
    decreases fams.len(),
{
    if fams.len() == 0 {
        t
    } else {
        strip_families(strip_family(t, fams[0]), fams.drop_first())
    }
}

pub open spec fn cleaned_endings(t: Seq<char>) -> Seq<char> {
    strip_families(t, ending_families())
}

/// Whether characters, given by their lower-cased forms, end with the
/// phrase `p`.
pub fn lowered_suffix_matches(lt: &Vec<Vec<char>>, p: &Vec<char>) -> (r: bool)
    ensures
        r == lowered_suffix(views(lt@), p@),
{
    let ghost v = views(lt@);
    if p.len() > lt.len() {
        return false;
    }
    let n = lt.len();
    let start = n - p.len();
    let mut j: usize = 0;
    while j < p.len()
        invariant
            v == views(lt@),
            v.len() == lt@.len(),
            n == lt@.len(),
            p@.len() <= v.len(),
            start == v.len() - p@.len(),
            j <= p@.len(),
            forall|k: int| 0 <= k < j ==> v[v.len() - p@.len() + k] == seq![#[trigger] p@[k]],
        decreases p.len() - j,
    {
        let lc = &lt[start + j];
        if lc.len() != 1 || lc[0] != p[j] {
            assert(v[v.len() - p@.len() + j] != seq![p@[j as int]]) by {
                if lc@.len() == 1 {
                    assert(seq![p@[j as int]][0] == p@[j as int]);
                }
            }
            return false;
        }
        assert(lc@ =~= seq![p@[j as int]]);
        j += 1;
    }
    true
}

fn ends_with_ci_at(t: &Vec<char>, e: usize, p: &Vec<char>) -> (r: bool)
    requires
        e <= t@.len(),
    ensures
        r == ends_with_ci(t@.subrange(0, e as int), p@),
{
    let mut lt: Vec<Vec<char>> = Vec::new();
    let mut i: usize = 0;
    while i < e
        invariant
            e <= t@.len(),
            i <= e,
            lt@.len() == i,
            forall|k: int| 0 <= k < i ==> (#[trigger] lt@[k])@ == lower_chars(t@[k]),
        decreases e - i,
    {
        lt.push(char_to_lowercase(t[i]));
        i += 1;
    }
    assert(views(lt@) =~= t@.subrange(0, e as int).map_values(|c: char| lower_chars(c)));
    lowered_suffix_matches(&lt, p)
}

fn ends_sentence(s: &Vec<char>) -> (r: bool)
    requires
        s@.len() > 0,
    ensures
        r == terminal(s@.last()),
{
    let c = s[s.len() - 1];
    c == '.' || c == '!' || c == '?'
}

fn strip_ending_chars(t: &Vec<char>, p: &Vec<char>) -> (r: Option<Vec<char>>)
    ensures
        r is Some <==> strip_ending(t@, p@) is Some,
        r is Some ==> r->Some_0@ == strip_ending(t@, p@)->Some_0,
{
    let e = trim_end_len(t);
    if !ends_with_ci_at(t, e, p) {
        return None;
    }
    let head = copy_range(t, 0, e - p.len());
    let mut before = trim_chars(&head);
    let n = split_words(&before).len();
    if n >= 3 && ends_sentence(&before) {
        Some(before)
    } else if n >= 5 {
        before.push('.');
        Some(before)
    } else {
        None
    }
}

fn strip_family_chars(t: Vec<char>, fam: &Vec<&str>) -> (r: Vec<char>)
    ensures
        r@ == strip_family(t@, fam@.map_values(|p: &str| p@)),
{
    let ghost f = fam@.map_values(|p: &str| p@);
    let mut j: usize = 0;
    assert(f =~= f.subrange(0, f.len() as int));
    while j < fam.len()
        invariant
            f == fam@.map_values(|p: &str| p@),
            j <= fam@.len(),
            strip_family(t@, f) == strip_family(t@, f.subrange(j as int, f.len() as int)),
        decreases fam.len() - j,
    {
        let p = chars_of(fam[j]);
        assert(f.subrange(j as int, f.len() as int)[0] == f[j as int]);
        assert(f.subrange(j as int, f.len() as int).drop_first() =~= f.subrange(j + 1, f.len() as int));
        match strip_ending_chars(&t, &p) {
            Some(r) => {
                return r;
            },
            None => {},
        }
        j += 1;
    }
    t
}

/// Removes sign-off phrases that the recognizer likely invented at the end
/// of the text, family by family, at most one phrase from each.
pub fn clean_hallucinated_endings(text: &str) -> (r: String)
    ensures
        r@ == cleaned_endings(text@),
{
    let table = ending_table();
    let ghost fams = ending_families();
    let mut cleaned = chars_of(text);
    let mut i: usize = 0;
    assert(fams =~= fams.subrange(0, fams.len() as int));
    while i < table.len()
        invariant
            fams == ending_families(),
            table@.len() == fams.len(),
            forall|a: int| 0 <= a < table@.len() ==> (#[trigger] table@[a])@.len() == fams[a].len(),
            forall|a: int, b: int|
                0 <= a < table@.len() && 0 <= b < table@[a]@.len() ==> (#[trigger] table@[a]@[b])@
                    == fams[a][b],
            i <= table@.len(),
            strip_families(text@, fams) == strip_families(
                cleaned@,
                fams.subrange(i as int, fams.len() as int),
            ),
        decreases table.len() - i,
    {
        let ghost rest = fams.subrange(i as int, fams.len() as int);
        assert(rest[0] == fams[i as int]);
        assert(rest.drop_first() =~= fams.subrange(i + 1, fams.len() as int));
        assert(table@[i as int]@.map_values(|p: &str| p@) =~= fams[i as int]);
        cleaned = strip_family_chars(cleaned, &table[i]);
        i += 1;
    }
    string_of(&cleaned)
}

} // verus!
