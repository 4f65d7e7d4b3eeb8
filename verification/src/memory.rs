//! Recall of remembered facts: turning a free-text prompt into a full-text search query,
//! and rendering a remembered fact.
use crate::text::{
    chars_of, is_blank, is_whitespace, join, joined, spec_is_blank, spec_is_whitespace,
    string_from_chars, strings_view,
};
use vstd::prelude::*;
use vstd::string::*;

verus! {

/// Whether `char::is_alphanumeric` holds of `c` (the Unicode `Alphabetic` or `Numeric`
/// property).
pub uninterp spec fn char_is_alphanumeric(c: char) -> bool;

/// `char::is_alphanumeric`.
#[verifier::external_body]
fn is_alphanumeric(c: char) -> (b: bool)
    ensures
        b == char_is_alphanumeric(c),
{
    c.is_alphanumeric()
}

/// A character that the search query keeps: alphanumeric or white space.
pub open spec fn query_char(c: char) -> bool {
    char_is_alphanumeric(c) || spec_is_whitespace(c)
}

/// The characters of `s` that the search query keeps, in order.
pub open spec fn query_chars(s: Seq<char>) -> Seq<char>
    decreases s.len(),
{
    if s.len() == 0 {
        s
    } else if query_char(s.last()) {
        query_chars(s.drop_last()).push(s.last())
    } else {
        query_chars(s.drop_last())
    }
}

/// Scanning `s` from the left: the words completed so far and the word being read.
pub open spec fn scan_words(s: Seq<char>) -> (Seq<Seq<char>>, Seq<char>)
    decreases s.len(),
{
    if s.len() == 0 {
        (Seq::empty(), Seq::empty())
    } else {
        let (done, cur) = scan_words(s.drop_last());
        if spec_is_whitespace(s.last()) {
            if cur.len() > 0 {
                (done.push(cur), Seq::empty())
            } else {
                (done, Seq::empty())
            }
        } else {
            (done, cur.push(s.last()))
        }
    }
}

/// The maximal runs of non-white-space characters of `s`, in order (`str::split_whitespace`).
pub open spec fn split_words(s: Seq<char>) -> Seq<Seq<char>> {
    let (done, cur) = scan_words(s);
    if cur.len() > 0 {
        done.push(cur)
    } else {
        done
    }
}

/// The full-text query for a prompt: `None` where the prompt keeps no word, and otherwise
/// its words (alphanumeric runs) joined by ` OR `.
pub open spec fn spec_fts_query(q: Seq<char>) -> Option<Seq<char>> {
    let kept = query_chars(q);
    if spec_is_blank(kept) {
        None
    } else {
        Some(joined(split_words(kept), " OR "@))
    }
}

/// The words of a text, as `str::split_whitespace` gives them.
pub fn split_whitespace(s: &[char]) -> (r: Vec<String>)
    ensures
        strings_view(r@) == split_words(s@),
{
    let mut done: Vec<String> = Vec::new();
    let mut cur: Vec<char> = Vec::new();
    let mut i: usize = 0;
    while i < s.len()
        invariant
            i <= s@.len(),
            (strings_view(done@), cur@) == scan_words(s@.subrange(0, i as int)),
        decreases s@.len() - i,
    {
        let c = s[i];
        assert(s@.subrange(0, i + 1).drop_last() =~= s@.subrange(0, i as int));
        assert(s@.subrange(0, i + 1).last() == c);
        if is_whitespace(c) {
            if cur.len() > 0 {
                let w = string_from_chars(cur.as_slice());
                let ghost before = strings_view(done@);
                done.push(w);
                assert(strings_view(done@) =~= before.push(cur@));
                cur = Vec::new();
            }
        } else {
            cur.push(c);
        }
        i = i + 1;
    }
    assert(s@.subrange(0, i as int) =~= s@);
    if cur.len() > 0 {
        let w = string_from_chars(cur.as_slice());
        let ghost before = strings_view(done@);
        done.push(w);
        assert(strings_view(done@) =~= before.push(cur@));
    }
    done
}

/// The full-text search query for a prompt: its alphanumeric words joined by ` OR `, or
/// `None` where it holds none (then nothing is searched).
pub fn fts_query(query: &str) -> (r: Option<String>)
    ensures
        match spec_fts_query(query@) {
            Some(q) => r is Some && r->0@ == q,
            None => r is None,
        },
{
    let v = chars_of(query);
    let mut kept: Vec<char> = Vec::new();
    let mut i: usize = 0;
    while i < v.len()
        invariant
            v@ == query@,
            i <= v@.len(),
            kept@ == query_chars(v@.subrange(0, i as int)),
        decreases v@.len() - i,
    {
        let c = v[i];
        assert(v@.subrange(0, i + 1).drop_last() =~= v@.subrange(0, i as int));
        assert(v@.subrange(0, i + 1).last() == c);
        if is_alphanumeric(c) || is_whitespace(c) {
            kept.push(c);
        }
        i = i + 1;
    }
    assert(v@.subrange(0, i as int) =~= v@);
    let clean = string_from_chars(kept.as_slice());
    if is_blank(clean.as_str()) {
        return None;
    }
    let words = split_whitespace(kept.as_slice());
    Some(join(&words, " OR "))
}

/// How a remembered fact is shown: `[topic] fact (learned from added_by)`.
pub open spec fn memory_line(topic: Seq<char>, fact: Seq<char>, added_by: Seq<char>) -> Seq<char> {
    "["@ + topic + "] "@ + fact + " (learned from "@ + added_by + ")"@
}

/// Renders a remembered fact as `[topic] fact (learned from added_by)`.
pub fn format_memory(topic: &str, fact: &str, added_by: &str) -> (r: String)
    ensures
        r@ == memory_line(topic@, fact@, added_by@),
{
    let mut s = String::from_str("[");
    s.append(topic);
    s.append("] ");
    s.append(fact);
    s.append(" (learned from ");
    s.append(added_by);
    s.append(")");
    s
}

/// Every character that `query_chars` keeps is alphanumeric or white space.
proof fn lemma_query_chars(s: Seq<char>)
    ensures
        forall|k: int| 0 <= k < query_chars(s).len() ==> query_char(#[trigger] query_chars(s)[k]),
    decreases s.len(),
{
    if s.len() > 0 {
        lemma_query_chars(s.drop_last());
        let pre = query_chars(s.drop_last());
        if query_char(s.last()) {
            assert forall|k: int| 0 <= k < query_chars(s).len() implies query_char(
                #[trigger] query_chars(s)[k],
            ) by {
                if k < pre.len() {
                    assert(query_chars(s)[k] == pre[k]);
                }
            }
        }
    }
}

/// Every word that the scan completes or reads is non-empty (where completed) and free of
/// white space.
proof fn lemma_scan_words(s: Seq<char>, f: spec_fn(char) -> bool)
    requires
        forall|k: int| 0 <= k < s.len() ==> f(#[trigger] s[k]),
    ensures
        forall|w: int|
            0 <= w < scan_words(s).0.len() ==> (#[trigger] scan_words(s).0[w]).len() > 0
                && forall|k: int|
                0 <= k < scan_words(s).0[w].len() ==> f(#[trigger] scan_words(s).0[w][k])
                && !spec_is_whitespace(scan_words(s).0[w][k]),
        forall|k: int|
            0 <= k < scan_words(s).1.len() ==> f(#[trigger] scan_words(s).1[k])
                && !spec_is_whitespace(scan_words(s).1[k]),
    decreases s.len(),
{
    if s.len() > 0 {
        assert forall|k: int| 0 <= k < s.drop_last().len() implies f(
            #[trigger] s.drop_last()[k],
        ) by {
            assert(s.drop_last()[k] == s[k]);
        }
        lemma_scan_words(s.drop_last(), f);
        assert(f(s[s.len() - 1]));
        let (done, cur) = scan_words(s.drop_last());
        let c = s.last();
        let (d2, c2) = scan_words(s);
        if spec_is_whitespace(c) {
            if cur.len() > 0 {
                assert forall|w: int| 0 <= w < d2.len() implies (#[trigger] d2[w]).len() > 0
                    && forall|k: int| 0 <= k < d2[w].len() ==> f(#[trigger] d2[w][k])
                    && !spec_is_whitespace(d2[w][k]) by {
                    if w < done.len() {
                        assert(d2[w] == done[w]);
                    } else {
                        assert(d2[w] == cur);
                    }
                }
            }
        } else {
            assert(d2 == done);
            assert forall|k: int| 0 <= k < c2.len() implies f(#[trigger] c2[k])
                && !spec_is_whitespace(c2[k]) by {
                if k < cur.len() {
                    assert(c2[k] == cur[k]);
                }
            }
        }
    }
}

/// A search query is made of non-empty words of alphanumeric characters only, joined by
/// ` OR `; a prompt with no such word gives no query.
pub proof fn lemma_fts_query_words(q: Seq<char>)
    ensures
        match spec_fts_query(q) {
            Some(r) => {
                let ws = split_words(query_chars(q));
                &&& r == joined(ws, " OR "@)
                &&& forall|w: int|
                    0 <= w < ws.len() ==> (#[trigger] ws[w]).len() > 0 && forall|k: int|
                        0 <= k < ws[w].len() ==> char_is_alphanumeric(#[trigger] ws[w][k])
            },
            None => spec_is_blank(query_chars(q)),
        },
{
    let kept = query_chars(q);
    lemma_query_chars(q);
    lemma_scan_words(kept, |c: char| query_char(c));
    let ws = split_words(kept);
    let (done, cur) = scan_words(kept);
    assert forall|w: int| 0 <= w < ws.len() implies (#[trigger] ws[w]).len() > 0 && forall|k: int|
        0 <= k < ws[w].len() ==> char_is_alphanumeric(#[trigger] ws[w][k]) by {
        if w < done.len() {
            assert(ws[w] == done[w]);
            assert forall|k: int| 0 <= k < ws[w].len() implies char_is_alphanumeric(
                #[trigger] ws[w][k],
            ) by {
                assert(query_char(done[w][k]) && !spec_is_whitespace(done[w][k]));
            }
        } else {
            assert(ws[w] == cur);
            assert forall|k: int| 0 <= k < ws[w].len() implies char_is_alphanumeric(
                #[trigger] ws[w][k],
            ) by {
                assert(query_char(cur[k]) && !spec_is_whitespace(cur[k]));
            }
        }
    }
}

proof fn lemma_scan_after_space(a: Seq<char>, w: char, b: Seq<char>)
    requires
        spec_is_whitespace(w),
    ensures
        scan_words(a + seq![w] + b) == (split_words(a) + scan_words(b).0, scan_words(b).1),
    decreases b.len(),
{
    if b.len() == 0 {
        assert(a + seq![w] + b =~= a.push(w));
        assert((a.push(w)).drop_last() =~= a);
        assert(scan_words(b).0 =~= Seq::<Seq<char>>::empty());
        assert(split_words(a) + Seq::<Seq<char>>::empty() =~= split_words(a));
    } else {
        let b0 = b.drop_last();
        lemma_scan_after_space(a, w, b0);
        assert((a + seq![w] + b).drop_last() =~= a + seq![w] + b0);
        assert((a + seq![w] + b).last() == b.last());
        let (d, c) = scan_words(b0);
        if spec_is_whitespace(b.last()) && c.len() > 0 {
            assert((split_words(a) + d).push(c) =~= split_words(a) + d.push(c));
        }
    }
}

proof fn lemma_scan_word(s: Seq<char>)
    requires
        forall|i: int| 0 <= i < s.len() ==> !spec_is_whitespace(#[trigger] s[i]),
    ensures
        scan_words(s) == (Seq::<Seq<char>>::empty(), s),
    decreases s.len(),
{
    if s.len() > 0 {
        lemma_scan_word(s.drop_last());
        assert(s.drop_last().push(s.last()) =~= s);
        assert(!spec_is_whitespace(s[s.len() - 1]));
    }
}

proof fn lemma_scan_spaces(s: Seq<char>)
    requires
        forall|i: int| 0 <= i < s.len() ==> spec_is_whitespace(#[trigger] s[i]),
    ensures
        scan_words(s) == (Seq::<Seq<char>>::empty(), Seq::<char>::empty()),
    decreases s.len(),
{
    if s.len() > 0 {
        lemma_scan_spaces(s.drop_last());
        assert(spec_is_whitespace(s[s.len() - 1]));
    }
}

/// Splitting into words keeps every word, in order: a white-space character separates
/// the words before it from those after it, a run without white space is one word, and
/// white space alone holds none.
pub proof fn lemma_split_words(a: Seq<char>, w: char, b: Seq<char>)
    ensures
        spec_is_whitespace(w) ==> split_words(a + seq![w] + b) == split_words(a) + split_words(b),
        (a.len() > 0 && forall|i: int| 0 <= i < a.len() ==> !spec_is_whitespace(#[trigger] a[i]))
            ==> split_words(a) == seq![a],
        (forall|i: int| 0 <= i < a.len() ==> spec_is_whitespace(#[trigger] a[i])) ==> split_words(a).len()
            == 0,
{
    if spec_is_whitespace(w) {
        lemma_scan_after_space(a, w, b);
        let (d, c) = scan_words(b);
        if c.len() > 0 {
            assert((split_words(a) + d).push(c) =~= split_words(a) + d.push(c));
        }
    }
    if a.len() > 0 && forall|i: int| 0 <= i < a.len() ==> !spec_is_whitespace(#[trigger] a[i]) {
        lemma_scan_word(a);
        assert(Seq::<Seq<char>>::empty().push(a) =~= seq![a]);
    }
    if forall|i: int| 0 <= i < a.len() ==> spec_is_whitespace(#[trigger] a[i]) {
        lemma_scan_spaces(a);
    }
}

} // verus!
