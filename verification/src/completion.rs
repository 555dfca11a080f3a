//! The tab-completion engine: command-position detection, candidate
//! collection, longest common prefix, and the press-again-to-list state
//! machine over (typed prefix, armed-for-listing flag).

use vstd::prelude::*;

use crate::resolver::is_builtin_name;
use crate::text::{is_shell_whitespace, is_whitespace_char, str_eq};
use crate::tokenizer::views_of;

verus! {

/// Lexicographic order on character sequences, by code point.
pub open spec fn lex_le(a: Seq<char>, b: Seq<char>) -> bool
    decreases a.len(),
{
    if a.len() == 0 {
        true
    } else if b.len() == 0 {
        false
    } else if (a[0] as u32) < (b[0] as u32) {
        true
    } else if (a[0] as u32) > (b[0] as u32) {
        false
    } else {
        lex_le(a.drop_first(), b.drop_first())
    }
}

proof fn char_cast_inj(c: char, d: char)
    requires
        c as u32 == d as u32,
    ensures
        c == d,
{
}

pub proof fn lemma_lex_refl(a: Seq<char>)
    ensures
        lex_le(a, a),
    decreases a.len(),
{
    if a.len() > 0 {
        lemma_lex_refl(a.drop_first());
    }
}

pub proof fn lemma_lex_total(a: Seq<char>, b: Seq<char>)
    ensures
        lex_le(a, b) || lex_le(b, a),
    decreases a.len(),
{
    if a.len() > 0 && b.len() > 0 && a[0] as u32 == b[0] as u32 {
        lemma_lex_total(a.drop_first(), b.drop_first());
    }
}

pub proof fn lemma_lex_antisym(a: Seq<char>, b: Seq<char>)
    requires
        lex_le(a, b),
        lex_le(b, a),
    ensures
        a == b,
    decreases a.len(),
{
    if a.len() == 0 {
        assert(b.len() == 0);
        assert(a =~= b);
    } else {
        assert(b.len() > 0);
        assert(a[0] as u32 == b[0] as u32);
        char_cast_inj(a[0], b[0]);
        lemma_lex_antisym(a.drop_first(), b.drop_first());
        assert(a.len() == b.len());
        assert forall|i: int| 0 <= i < a.len() implies a[i] == b[i] by {
            if i > 0 {
                assert(a[i] == a.drop_first()[i - 1]);
                assert(b[i] == b.drop_first()[i - 1]);
            }
        }
        assert(a =~= b);
    }
}

pub proof fn lemma_lex_trans(a: Seq<char>, b: Seq<char>, c: Seq<char>)
    requires
        lex_le(a, b),
        lex_le(b, c),
    ensures
        lex_le(a, c),
    decreases a.len(),
{
    if a.len() > 0 && b.len() > 0 && c.len() > 0 && a[0] as u32 == b[0] as u32 && b[0] as u32
        == c[0] as u32 {
        lemma_lex_trans(a.drop_first(), b.drop_first(), c.drop_first());
    }
}

/// Decides the lexicographic order of two strings, character by character.
pub fn str_le(a: &str, b: &str) -> (r: bool)
    ensures
        r == lex_le(a@, b@),
{
    let na = a.unicode_len();
    let nb = b.unicode_len();
    proof {
        assert(a@.skip(0) =~= a@);
        assert(b@.skip(0) =~= b@);
    }
    let mut i: usize = 0;
    while i < na && i < nb
        invariant
            i <= na,
            i <= nb,
            na == a@.len(),
            nb == b@.len(),
            lex_le(a@, b@) == lex_le(a@.skip(i as int), b@.skip(i as int)),
            lex_le(b@, a@) == lex_le(b@.skip(i as int), a@.skip(i as int)),
        decreases na - i,
    {
        let ca = a.get_char(i);
        let cb = b.get_char(i);
        proof {
            assert(a@.skip(i as int)[0] == a@[i as int]);
            assert(b@.skip(i as int)[0] == b@[i as int]);
        }
        if (ca as u32) < (cb as u32) {
            return true;
        }
        if (ca as u32) > (cb as u32) {
            return false;
        }
        proof {
            assert(a@.skip(i as int).drop_first() =~= a@.skip(i as int + 1));
            assert(b@.skip(i as int).drop_first() =~= b@.skip(i as int + 1));
        }
        i += 1;
    }
    proof {
        assert(a@.skip(i as int).len() == na - i);
        assert(b@.skip(i as int).len() == nb - i);
    }
    i >= na
}

/// Whether `prefix` begins `s`.
pub fn starts_with(s: &str, prefix: &str) -> (r: bool)
    ensures
        r == prefix@.is_prefix_of(s@),
{
    let np = prefix.unicode_len();
    let ns = s.unicode_len();
    if np > ns {
        proof {
            if prefix@.is_prefix_of(s@) {
                assert(prefix@.len() <= s@.len());
            }
        }
        return false;
    }
    let mut i: usize = 0;
    while i < np
        invariant
            i <= np,
            np == prefix@.len(),
            ns == s@.len(),
            np <= ns,
            forall|j: int| 0 <= j < i ==> prefix@[j] == s@[j],
        decreases np - i,
    {
        if prefix.get_char(i) != s.get_char(i) {
            proof {
                if prefix@.is_prefix_of(s@) {
                    assert(prefix@ =~= s@.subrange(0, np as int));
                    assert(prefix@[i as int] == s@[i as int]);
                }
            }
            return false;
        }
        i += 1;
    }
    proof {
        assert(prefix@ =~= s@.subrange(0, np as int));
    }
    true
}

/// Strictly increasing in lexicographic order: sorted with no duplicates.
pub open spec fn strictly_sorted(v: Seq<Seq<char>>) -> bool {
    forall|i: int, j: int|
        0 <= i < j < v.len() ==> lex_le(#[trigger] v[i], #[trigger] v[j]) && v[i] != v[j]
}

proof fn lemma_views_of_insert(v: Seq<String>, k: int, t: String)
    requires
        0 <= k <= v.len(),
    ensures
        views_of(v.insert(k, t)) == views_of(v).insert(k, t@),
{
    assert(views_of(v.insert(k, t)) =~= views_of(v).insert(k, t@));
}

/// Inserts a string into a strictly sorted list, keeping it strictly sorted;
/// a string already present is not added again.
fn insert_candidate(out: &mut Vec<String>, s: String)
    requires
        strictly_sorted(views_of(old(out)@)),
    ensures
        strictly_sorted(views_of(final(out)@)),
        forall|x: Seq<char>|
            #[trigger] views_of(final(out)@).contains(x) <==> views_of(old(out)@).contains(x) || x
                == s@,
{
    let ghost orig = views_of(out@);
    let mut j: usize = 0;
    while j < out.len()
        invariant
            j <= out@.len(),
            out@ == old(out)@,
            orig == views_of(out@),
            strictly_sorted(orig),
            forall|k: int| 0 <= k < j ==> lex_le(#[trigger] orig[k], s@) && orig[k] != s@,
        decreases out@.len() - j,
    {
        proof {
            assert(orig[j as int] == out@[j as int]@);
        }
        if str_eq(out[j].as_str(), s.as_str()) {
            proof {
                assert(views_of(out@).contains(s@)) by {
                    assert(views_of(out@)[j as int] == s@);
                }
            }
            return ;
        }
        if str_le(s.as_str(), out[j].as_str()) {
            let ghost pre = out@;
            out.insert(j, s);
            proof {
                lemma_views_of_insert(pre, j as int, s);
                let newv = views_of(out@);
                assert(newv == orig.insert(j as int, s@));
                assert forall|p: int, q: int| 0 <= p < q < newv.len() implies lex_le(
                    #[trigger] newv[p],
                    #[trigger] newv[q],
                ) && newv[p] != newv[q] by {
                    if p < j && q == j {
                        assert(newv[p] == orig[p]);
                        assert(newv[q] == s@);
                    } else if p == j {
                        assert(newv[p] == s@);
                        assert(newv[q] == orig[q - 1]);
                        assert(lex_le(s@, orig[j as int]));
                        if j < q - 1 {
                            assert(lex_le(orig[j as int], orig[q - 1]));
                            lemma_lex_trans(s@, orig[j as int], orig[q - 1]);
                            if s@ == orig[q - 1] {
                                lemma_lex_antisym(s@, orig[j as int]);
                            }
                        } else {
                            if s@ == orig[q - 1] {
                                lemma_lex_refl(s@);
                            }
                        }
                    } else if p < j && q > j {
                        assert(newv[p] == orig[p]);
                        assert(newv[q] == orig[q - 1]);
                    } else if p > j {
                        assert(newv[p] == orig[p - 1]);
                        assert(newv[q] == orig[q - 1]);
                    } else {
                        assert(newv[p] == orig[p]);
                        assert(newv[q] == orig[q]);
                    }
                }
                assert forall|x: Seq<char>| #[trigger]
                    newv.contains(x) <==> orig.contains(x) || x == s@ by {
                    if newv.contains(x) {
                        let ix = choose|ix: int| 0 <= ix < newv.len() && newv[ix] == x;
                        if ix < j {
                            assert(orig[ix] == x);
                        } else if ix == j {
                        } else {
                            assert(orig[ix - 1] == x);
                        }
                    }
                    if orig.contains(x) {
                        let ix = choose|ix: int| 0 <= ix < orig.len() && orig[ix] == x;
                        if ix < j {
                            assert(newv[ix] == x);
                        } else {
                            assert(newv[ix + 1] == x);
                        }
                    }
                    if x == s@ {
                        assert(newv[j as int] == x);
                    }
                }
            }
            return ;
        }
        proof {
            crate::completion::lemma_lex_total(s@, orig[j as int]);
            if orig[j as int] == s@ {
                lemma_lex_refl(s@);
            }
        }
        j += 1;
    }
    let ghost pre = out@;
    out.push(s);
    proof {
        crate::tokenizer::lemma_views_of_push(pre, s);
        let newv = views_of(out@);
        assert(newv == orig.push(s@));
        assert forall|p: int, q: int| 0 <= p < q < newv.len() implies lex_le(
            #[trigger] newv[p],
            #[trigger] newv[q],
        ) && newv[p] != newv[q] by {
            if q == newv.len() - 1 {
                assert(newv[p] == orig[p]);
                assert(newv[q] == s@);
            } else {
                assert(newv[p] == orig[p]);
                assert(newv[q] == orig[q]);
            }
        }
        assert forall|x: Seq<char>| #[trigger] newv.contains(x) <==> orig.contains(x) || x
            == s@ by {
            if newv.contains(x) {
                let ix = choose|ix: int| 0 <= ix < newv.len() && newv[ix] == x;
                if ix < newv.len() - 1 {
                    assert(orig[ix] == x);
                }
            }
            if orig.contains(x) {
                let ix = choose|ix: int| 0 <= ix < orig.len() && orig[ix] == x;
                assert(newv[ix] == x);
            }
            if x == s@ {
                assert(newv[newv.len() - 1] == x);
            }
        }
    }
}

/// The longest common prefix of two character sequences.
pub open spec fn lcp2(a: Seq<char>, b: Seq<char>) -> Seq<char>
    decreases a.len(),
{
    if a.len() == 0 || b.len() == 0 || a[0] != b[0] {
        Seq::empty()
    } else {
        seq![a[0]] + lcp2(a.drop_first(), b.drop_first())
    }
}

/// The longest common prefix of a candidate list: a single candidate itself,
/// or the pairwise prefix folded over the list.
pub open spec fn lcp_all(strs: Seq<Seq<char>>) -> Seq<char>
    decreases strs.len(),
{
    if strs.len() == 0 {
        Seq::empty()
    } else if strs.len() == 1 {
        strs[0]
    } else {
        lcp2(lcp_all(strs.drop_last()), strs.last())
    }
}

proof fn lemma_lcp2_is_common(a: Seq<char>, b: Seq<char>)
    ensures
        lcp2(a, b).is_prefix_of(a),
        lcp2(a, b).is_prefix_of(b),
    decreases a.len(),
{
    if !(a.len() == 0 || b.len() == 0 || a[0] != b[0]) {
        lemma_lcp2_is_common(a.drop_first(), b.drop_first());
        let r = lcp2(a, b);
        assert(r.drop_first() =~= lcp2(a.drop_first(), b.drop_first()));
        assert(r =~= a.subrange(0, r.len() as int));
        assert(r =~= b.subrange(0, r.len() as int));
    }
}

proof fn lemma_lcp2_is_longest(a: Seq<char>, b: Seq<char>, c: Seq<char>)
    requires
        c.is_prefix_of(a),
        c.is_prefix_of(b),
    ensures
        c.is_prefix_of(lcp2(a, b)),
    decreases c.len(),
{
    if c.len() > 0 {
        assert(c[0] == a[0]);
        assert(c[0] == b[0]);
        assert(c.drop_first().is_prefix_of(a.drop_first())) by {
            assert(c.drop_first() =~= a.drop_first().subrange(0, c.len() - 1));
        }
        assert(c.drop_first().is_prefix_of(b.drop_first())) by {
            assert(c.drop_first() =~= b.drop_first().subrange(0, c.len() - 1));
        }
        lemma_lcp2_is_longest(a.drop_first(), b.drop_first(), c.drop_first());
        let r = lcp2(a, b);
        assert(r.drop_first() =~= lcp2(a.drop_first(), b.drop_first()));
        assert(r.len() >= c.len());
        assert forall|i: int| 0 <= i < c.len() implies c[i] == r[i] by {
            if i > 0 {
                assert(c[i] == c.drop_first()[i - 1]);
                assert(c.drop_first()[i - 1] == r.drop_first()[i - 1]);
                assert(r.drop_first()[i - 1] == r[i]);
            } else {
                assert(r[0] == a[0]);
            }
        }
        assert(c =~= r.subrange(0, c.len() as int));
    } else {
        assert(c =~= lcp2(a, b).subrange(0, 0));
    }
}

/// Law: `lcp_all` is what its name says. For a non-empty candidate list it is
/// a prefix of every candidate, and every string that is a prefix of all of
/// them is a prefix of it.
pub proof fn lemma_lcp_all_characterization(strs: Seq<Seq<char>>, c: Seq<char>)
    requires
        strs.len() > 0,
    ensures
        forall|k: int| 0 <= k < strs.len() ==> lcp_all(strs).is_prefix_of(#[trigger] strs[k]),
        (forall|k: int| 0 <= k < strs.len() ==> c.is_prefix_of(#[trigger] strs[k]))
            ==> c.is_prefix_of(lcp_all(strs)),
    decreases strs.len(),
{
    if strs.len() == 1 {
        assert(lcp_all(strs).is_prefix_of(strs[0])) by {
            assert(strs[0] =~= strs[0].subrange(0, strs[0].len() as int));
        }
    } else {
        let front = strs.drop_last();
        lemma_lcp_all_characterization(front, c);
        lemma_lcp2_is_common(lcp_all(front), strs.last());
        let r = lcp_all(strs);
        assert forall|k: int| 0 <= k < strs.len() implies r.is_prefix_of(#[trigger] strs[k]) by {
            if k < strs.len() - 1 {
                assert(lcp_all(front).is_prefix_of(front[k]));
                assert(front[k] == strs[k]);
                assert(r.is_prefix_of(lcp_all(front)));
                assert(r =~= strs[k].subrange(0, r.len() as int));
            } else {
                assert(strs[k] == strs.last());
            }
        }
        if forall|k: int| 0 <= k < strs.len() ==> c.is_prefix_of(#[trigger] strs[k]) {
            assert forall|k: int| 0 <= k < front.len() implies c.is_prefix_of(
                #[trigger] front[k],
            ) by {
                assert(front[k] == strs[k]);
            }
            assert(c.is_prefix_of(lcp_all(front)));
            assert(c.is_prefix_of(strs.last()));
            lemma_lcp2_is_longest(lcp_all(front), strs.last(), c);
        }
    }
}

proof fn lemma_lcp2_at(a: Seq<char>, b: Seq<char>, j: int)
    requires
        0 <= j <= a.len(),
        j <= b.len(),
        forall|k: int| 0 <= k < j ==> a[k] == b[k],
        j == a.len() || j == b.len() || a[j] != b[j],
    ensures
        lcp2(a, b) == a.take(j),
    decreases j,
{
    if j == 0 {
        assert(lcp2(a, b) =~= a.take(0));
    } else {
        assert(a[0] == b[0]);
        lemma_lcp2_at(a.drop_first(), b.drop_first(), j - 1);
        assert(seq![a[0]] + a.drop_first().take(j - 1) =~= a.take(j));
    }
}

/// The longest string that is a prefix of every candidate in the list.
pub fn longest_common_prefix(strs: &Vec<String>) -> (r: String)
    ensures
        r@ == lcp_all(views_of(strs@)),
{
    if strs.len() == 0 {
        proof {
            assert(views_of(strs@).len() == 0);
        }
        return String::new();
    }
    let ghost sv = views_of(strs@);
    let first: &str = strs[0].as_str();
    let mut end: usize = first.unicode_len();
    proof {
        assert(sv[0] == strs@[0]@);
        assert(first@.take(end as int) =~= sv[0]);
        assert(sv.take(1) =~= seq![sv[0]]);
    }
    let mut i: usize = 1;
    while i < strs.len()
        invariant
            1 <= i <= strs@.len(),
            sv == views_of(strs@),
            first@ == sv[0],
            end <= first@.len(),
            first@.take(end as int) == lcp_all(sv.take(i as int)),
        decreases strs@.len() - i,
    {
        let s = strs[i].as_str();
        let slen = s.unicode_len();
        proof {
            assert(sv[i as int] == strs@[i as int]@);
        }
        let mut j: usize = 0;
        while j < end && j < slen && first.get_char(j) == s.get_char(j)
            invariant
                j <= end,
                j <= slen,
                end <= first@.len(),
                slen == s@.len(),
                forall|k: int| 0 <= k < j ==> first@[k] == s@[k],
            decreases end - j,
        {
            j += 1;
        }
        proof {
            assert(first@.take(end as int).len() == end);
            assert(forall|k: int|
                0 <= k < j ==> #[trigger] first@.take(end as int)[k] == first@[k]);
            if j < end && j < slen {
                assert(first@.take(end as int)[j as int] == first@[j as int]);
                assert(first@[j as int] != s@[j as int]);
            }
            lemma_lcp2_at(first@.take(end as int), s@, j as int);
            assert(sv.take(i as int + 1).drop_last() =~= sv.take(i as int));
            assert(sv.take(i as int + 1).last() == sv[i as int]);
            assert(lcp_all(sv.take(i as int + 1)) == lcp2(
                first@.take(end as int),
                s@,
            ));
            assert(first@.take(end as int).take(j as int) =~= first@.take(j as int));
        }
        end = j;
        i += 1;
    }
    let res = first.substring_char(0, end);
    proof {
        assert(sv.take(sv.len() as int) =~= sv);
        assert(res@ =~= first@.take(end as int));
    }
    String::from_str(res)
}

proof fn lemma_contains_take_step(v: Seq<Seq<char>>, i: int, x: Seq<char>)
    requires
        0 <= i < v.len(),
    ensures
        v.take(i + 1).contains(x) <==> v.take(i).contains(x) || x == v[i],
{
    if v.take(i + 1).contains(x) {
        let ix = choose|ix: int| 0 <= ix < i + 1 && #[trigger] v.take(i + 1)[ix] == x;
        if ix < i {
            assert(v.take(i)[ix] == x);
        }
    }
    if v.take(i).contains(x) {
        let ix = choose|ix: int| 0 <= ix < i && #[trigger] v.take(i)[ix] == x;
        assert(v.take(i + 1)[ix] == x);
    }
    if x == v[i] {
        assert(v.take(i + 1)[i] == x);
    }
}

fn add_if_match(out: &mut Vec<String>, name: &str, prefix: &str)
    requires
        strictly_sorted(views_of(old(out)@)),
    ensures
        strictly_sorted(views_of(final(out)@)),
        forall|x: Seq<char>|
            #[trigger] views_of(final(out)@).contains(x) <==> views_of(old(out)@).contains(x) || (x
                == name@ && prefix@.is_prefix_of(name@)),
{
    if starts_with(name, prefix) {
        insert_candidate(out, String::from_str(name));
    }
}

/// The candidate set for a prefix: every builtin name and every given
/// executable name that begins with the prefix, in strict lexicographic
/// order, each at most once.
pub open spec fn is_candidate_set(
    prefix: Seq<char>,
    names: Seq<Seq<char>>,
    cs: Seq<Seq<char>>,
) -> bool {
    strictly_sorted(cs) && (forall|x: Seq<char>|
        #[trigger] cs.contains(x) <==> ((is_builtin_name(x) || names.contains(x))
            && prefix.is_prefix_of(x)))
}

/// Collects, sorts and deduplicates the completion candidates for a prefix:
/// the matching builtin names together with the matching executable names
/// found in the search path.
pub fn completion_candidates(prefix: &str, path_names: &Vec<String>) -> (r: Vec<String>)
    ensures
        is_candidate_set(prefix@, views_of(path_names@), views_of(r@)),
{
    let mut out: Vec<String> = Vec::new();
    add_if_match(&mut out, "exit", prefix);
    add_if_match(&mut out, "echo", prefix);
    add_if_match(&mut out, "pwd", prefix);
    add_if_match(&mut out, "type", prefix);
    add_if_match(&mut out, "cd", prefix);
    add_if_match(&mut out, "history", prefix);
    proof {
        assert(forall|x: Seq<char>|
            #[trigger] views_of(out@).contains(x) <==> is_builtin_name(x) && prefix@.is_prefix_of(
                x,
            ));
    }
    let ghost pnv = views_of(path_names@);
    let mut i: usize = 0;
    while i < path_names.len()
        invariant
            i <= path_names@.len(),
            pnv == views_of(path_names@),
            strictly_sorted(views_of(out@)),
            forall|x: Seq<char>|
                #[trigger] views_of(out@).contains(x) <==> ((is_builtin_name(x) || pnv.take(
                    i as int,
                ).contains(x)) && prefix@.is_prefix_of(x)),
        decreases path_names@.len() - i,
    {
        proof {
            assert(pnv[i as int] == path_names@[i as int]@);
        }
        add_if_match(&mut out, path_names[i].as_str(), prefix);
        proof {
            assert forall|x: Seq<char>|
                #[trigger] views_of(out@).contains(x) <==> ((is_builtin_name(x) || pnv.take(
                    i as int + 1,
                ).contains(x)) && prefix@.is_prefix_of(x)) by {
                lemma_contains_take_step(pnv, i as int, x);
            }
        }
        i += 1;
    }
    proof {
        assert(pnv.take(pnv.len() as int) =~= pnv);
    }
    out
}

/// The completion engine's press-again state: the most recently requested
/// prefix, and whether a repeated identical request should list.
#[derive(Debug, Clone)]
pub struct CompletionState {
    pub last_prefix: Option<String>,
    pub armed_for_list: bool,
}

/// The mathematical value of a `CompletionState`.
pub struct StateModel {
    pub last_prefix: Option<Seq<char>>,
    pub armed_for_list: bool,
}

impl View for CompletionState {
    type V = StateModel;

    open spec fn view(&self) -> StateModel {
        StateModel {
            last_prefix: match &self.last_prefix {
                Some(p) => Some(p@),
                None => None,
            },
            armed_for_list: self.armed_for_list,
        }
    }
}

/// No remembered prefix, not armed.
pub open spec fn state_reset() -> StateModel {
    StateModel { last_prefix: None, armed_for_list: false }
}

/// What one completion request asks the line editor to do: nothing (cursor
/// not in command position), signal no match, replace the token with the one
/// match plus a trailing space, replace it with a longer common prefix, or
/// display the full candidate list with the buffer unchanged.
#[derive(Debug, Clone)]
pub enum CompletionAction {
    NotApplicable,
    NoMatch,
    Single(String),
    Extend(String),
    List(Vec<String>),
}

/// The mathematical value of a `CompletionAction`.
pub enum ActionModel {
    NotApplicable,
    NoMatch,
    Single(Seq<char>),
    Extend(Seq<char>),
    List(Seq<Seq<char>>),
}

impl View for CompletionAction {
    type V = ActionModel;

    open spec fn view(&self) -> ActionModel {
        match self {
            CompletionAction::NotApplicable => ActionModel::NotApplicable,
            CompletionAction::NoMatch => ActionModel::NoMatch,
            CompletionAction::Single(m) => ActionModel::Single(m@),
            CompletionAction::Extend(l) => ActionModel::Extend(l@),
            CompletionAction::List(ms) => ActionModel::List(views_of(ms@)),
        }
    }
}

/// The transition table of the completion engine, as a pure function of the
/// previous state, the typed prefix and the candidate set: no candidate
/// bells; one candidate completes with a trailing space; common-prefix
/// progress extends the token; otherwise the first identical request bells
/// and arms, and the second reveals the list. Every row but the arming one
/// resets the state.
pub open spec fn complete_transition(
    st: StateModel,
    prefix: Seq<char>,
    matches: Seq<Seq<char>>,
) -> (StateModel, ActionModel) {
    if matches.len() == 0 {
        (state_reset(), ActionModel::NoMatch)
    } else if matches.len() == 1 {
        (state_reset(), ActionModel::Single(matches[0].push(' ')))
    } else if prefix.len() < lcp_all(matches).len() {
        (state_reset(), ActionModel::Extend(lcp_all(matches)))
    } else if st.last_prefix == Some(prefix) && st.armed_for_list {
        (state_reset(), ActionModel::List(matches))
    } else {
        (StateModel { last_prefix: Some(prefix), armed_for_list: true }, ActionModel::NoMatch)
    }
}

/// Completion is offered only while the cursor is inside the first
/// whitespace-delimited token of the line.
pub open spec fn completion_applies(line: Seq<char>, pos: int) -> bool {
    forall|j: int| 0 <= j < pos ==> !is_shell_whitespace(#[trigger] line[j])
}

/// The completion engine with its session-local state, threaded explicitly
/// through each request.
#[derive(Debug)]
pub struct ShellHelper {
    pub state: CompletionState,
}

impl ShellHelper {
    /// A fresh engine: no remembered prefix, not armed.
    pub fn new() -> (s: ShellHelper)
        ensures
            s.state@ == state_reset(),
    {
        ShellHelper {
            state: CompletionState { last_prefix: None, armed_for_list: false },
        }
    }

    /// Answers one completion request for the buffer `line` with the cursor
    /// at character position `pos`, given the executable names found in the
    /// search path. Outside the command position nothing happens and the
    /// state is untouched; otherwise the candidate set for the typed prefix
    /// is collected and the transition table is applied.
    pub fn complete(&mut self, line: &str, pos: usize, path_names: &Vec<String>) -> (r:
        CompletionAction)
        requires
            pos <= line@.len(),
        ensures
            ({
                let prefix = line@.take(pos as int);
                if completion_applies(line@, pos as int) && pos > 0 {
                    exists|cs: Seq<Seq<char>>|
                        #[trigger] is_candidate_set(prefix, views_of(path_names@), cs) && (
                        final(self).state@,
                        r@,
                    ) == complete_transition(old(self).state@, prefix, cs)
                } else {
                    r@ == ActionModel::NotApplicable && final(self).state@ == old(self).state@
                }
            }),
    {
        if pos == 0 {
            return CompletionAction::NotApplicable;
        }
        let mut k: usize = 0;
        while k < pos
            invariant
                k <= pos,
                pos <= line@.len(),
                forall|j: int| 0 <= j < k ==> !is_shell_whitespace(#[trigger] line@[j]),
            decreases pos - k,
        {
            if is_whitespace_char(line.get_char(k)) {
                return CompletionAction::NotApplicable;
            }
            k += 1;
        }
        let prefix = line.substring_char(0, pos);
        let ghost pfx = line@.take(pos as int);
        proof {
            assert(prefix@ == pfx);
        }
        let matches = completion_candidates(prefix, path_names);
        let ghost csv = views_of(matches@);
        if matches.len() == 0 {
            self.state = CompletionState { last_prefix: None, armed_for_list: false };
            proof {
                assert(csv.len() == 0);
            }
            CompletionAction::NoMatch
        } else if matches.len() == 1 {
            self.state = CompletionState { last_prefix: None, armed_for_list: false };
            let mut m = matches[0].clone();
            m.push(' ');
            proof {
                assert(csv[0] == matches@[0]@);
            }
            CompletionAction::Single(m)
        } else {
            let lcp = longest_common_prefix(&matches);
            let plen = prefix.unicode_len();
            let llen = lcp.as_str().unicode_len();
            if llen > plen {
                self.state = CompletionState { last_prefix: None, armed_for_list: false };
                CompletionAction::Extend(lcp)
            } else {
                let same = match &self.state.last_prefix {
                    Some(lp) => str_eq(lp.as_str(), prefix),
                    None => false,
                };
                if same && self.state.armed_for_list {
                    self.state = CompletionState { last_prefix: None, armed_for_list: false };
                    CompletionAction::List(matches)
                } else {
                    self.state = CompletionState {
                        last_prefix: Some(String::from_str(prefix)),
                        armed_for_list: true,
                    };
                    CompletionAction::NoMatch
                }
            }
        }
    }
}

proof fn lemma_sorted_same_members_equal(a: Seq<Seq<char>>, b: Seq<Seq<char>>)
    requires
        strictly_sorted(a),
        strictly_sorted(b),
        forall|x: Seq<char>| #[trigger] a.contains(x) <==> b.contains(x),
    ensures
        a == b,
    decreases a.len(),
{
    if a.len() == 0 {
        if b.len() > 0 {
            assert(b.contains(b[0]));
            assert(a.contains(b[0]));
        }
        assert(a =~= b);
    } else {
        assert(a.contains(a[0]));
        assert(b.contains(a[0]));
        let k = choose|k: int| 0 <= k < b.len() && #[trigger] b[k] == a[0];
        assert(b.contains(b[0]));
        assert(a.contains(b[0]));
        let m = choose|m: int| 0 <= m < a.len() && #[trigger] a[m] == b[0];
        if k > 0 && m > 0 {
            assert(lex_le(b[0], b[k]) && b[0] != b[k]);
            assert(lex_le(a[0], a[m]) && a[0] != a[m]);
            lemma_lex_antisym(a[0], b[0]);
            assert(false);
        }
        assert(a[0] == b[0]);
        let at = a.drop_first();
        let bt = b.drop_first();
        assert forall|p: int, q: int| 0 <= p < q < at.len() implies lex_le(
            #[trigger] at[p],
            #[trigger] at[q],
        ) && at[p] != at[q] by {
            assert(at[p] == a[p + 1]);
            assert(at[q] == a[q + 1]);
        }
        assert forall|p: int, q: int| 0 <= p < q < bt.len() implies lex_le(
            #[trigger] bt[p],
            #[trigger] bt[q],
        ) && bt[p] != bt[q] by {
            assert(bt[p] == b[p + 1]);
            assert(bt[q] == b[q + 1]);
        }
        assert forall|x: Seq<char>| #[trigger] at.contains(x) <==> bt.contains(x) by {
            if at.contains(x) {
                let i = choose|i: int| 0 <= i < at.len() && #[trigger] at[i] == x;
                assert(a[i + 1] == x);
                assert(a.contains(x));
                assert(b.contains(x));
                let jx = choose|jx: int| 0 <= jx < b.len() && #[trigger] b[jx] == x;
                if jx == 0 {
                    assert(lex_le(a[0], a[i + 1]) && a[0] != a[i + 1]);
                    assert(false);
                }
                assert(bt[jx - 1] == x);
                assert(bt.contains(x));
            }
            if bt.contains(x) {
                let i = choose|i: int| 0 <= i < bt.len() && #[trigger] bt[i] == x;
                assert(b[i + 1] == x);
                assert(b.contains(x));
                assert(a.contains(x));
                let jx = choose|jx: int| 0 <= jx < a.len() && #[trigger] a[jx] == x;
                if jx == 0 {
                    assert(lex_le(b[0], b[i + 1]) && b[0] != b[i + 1]);
                    assert(false);
                }
                assert(at[jx - 1] == x);
                assert(at.contains(x));
            }
        }
        lemma_sorted_same_members_equal(at, bt);
        assert(a.len() == b.len());
        assert forall|i: int| 0 <= i < a.len() implies a[i] == b[i] by {
            if i > 0 {
                assert(a[i] == at[i - 1]);
                assert(b[i] == bt[i - 1]);
            }
        }
        assert(a =~= b);
    }
}

/// Law: the candidate set of a prefix is unique. Strict sorting plus the
/// membership rule determine the list completely, so the action the engine
/// takes on a request is fully determined by the typed prefix, the executable
/// names, and the previous state.
pub proof fn lemma_candidate_set_unique(
    prefix: Seq<char>,
    names: Seq<Seq<char>>,
    cs1: Seq<Seq<char>>,
    cs2: Seq<Seq<char>>,
)
    requires
        is_candidate_set(prefix, names, cs1),
        is_candidate_set(prefix, names, cs2),
    ensures
        cs1 == cs2,
{
    assert forall|x: Seq<char>| #[trigger] cs1.contains(x) <==> cs2.contains(x) by {
        assert(cs1.contains(x) <==> ((is_builtin_name(x) || names.contains(x))
            && prefix.is_prefix_of(x)));
        assert(cs2.contains(x) <==> ((is_builtin_name(x) || names.contains(x))
            && prefix.is_prefix_of(x)));
    }
    lemma_sorted_same_members_equal(cs1, cs2);
}

/// Law: the two-step reveal. With several candidates and no common-prefix
/// progress beyond the typed prefix, a request that finds the state unarmed
/// (or remembering another prefix) signals no match and arms the state for
/// this prefix; an immediately repeated request for the same prefix returns
/// the full candidate list and resets the state.
pub proof fn lemma_two_step_reveal(st: StateModel, prefix: Seq<char>, matches: Seq<Seq<char>>)
    requires
        matches.len() > 1,
        lcp_all(matches).len() <= prefix.len(),
        !(st.last_prefix == Some(prefix) && st.armed_for_list),
    ensures
        ({
            let (st1, a1) = complete_transition(st, prefix, matches);
            let (st2, a2) = complete_transition(st1, prefix, matches);
            a1 == ActionModel::NoMatch && st1 == (StateModel {
                last_prefix: Some(prefix),
                armed_for_list: true,
            }) && a2 == ActionModel::List(matches) && st2 == state_reset()
        }),
{
}

/// Law: a new prefix resets the two-step state. Even when armed, a request
/// for a different prefix does not list; it signals no match and arms for the
/// new prefix instead.
pub proof fn lemma_new_prefix_rearms(st: StateModel, prefix: Seq<char>, matches: Seq<Seq<char>>)
    requires
        matches.len() > 1,
        lcp_all(matches).len() <= prefix.len(),
        st.last_prefix != Some(prefix),
    ensures
        complete_transition(st, prefix, matches) == (
            StateModel { last_prefix: Some(prefix), armed_for_list: true },
            ActionModel::NoMatch,
        ),
{
}

} // verus!
