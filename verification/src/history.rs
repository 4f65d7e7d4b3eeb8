//! Preparing a conversation history before it is sent to the model.
use crate::model::{
    any_tool_part, contents_view, has_tool_part, parts_view, Content, ContentV, DataV, Part,
    PartData, PartV, spec_is_tool_part,
};
use crate::text::{is_blank, spec_is_blank, spec_is_whitespace, str_eq, trim_end, trim_start};
use vstd::prelude::*;
use vstd::string::*;

verus! {

/// The text that stands for a function call outside the active turn.
pub open spec fn called_tool_note(name: Seq<char>) -> Seq<char> {
    "[Called tool: "@ + name + "]"@
}

/// The text that stands for a function response outside the active turn.
pub open spec fn tool_finished_note(name: Seq<char>) -> Seq<char> {
    "[Tool "@ + name + " finished]"@
}

/// What becomes of one part: blank texts and parts without text, call or response are
/// dropped; calls and responses are kept where `keep_calls` / `keep_responses` hold and
/// are replaced by a short note otherwise.
pub open spec fn clean_part(p: PartV, keep_calls: bool, keep_responses: bool) -> Option<PartV> {
    match p {
        Some(DataV::Text(t)) => if spec_is_blank(t) {
            None
        } else {
            Some(p)
        },
        Some(DataV::FunctionCall(c)) => if keep_calls {
            Some(p)
        } else {
            Some(Some(DataV::Text(called_tool_note(c.name))))
        },
        Some(DataV::FunctionResponse(r)) => if keep_responses {
            Some(p)
        } else {
            Some(Some(DataV::Text(tool_finished_note(r.name))))
        },
        _ => None,
    }
}

/// The parts of one turn after cleaning, in order.
pub open spec fn clean_parts(ps: Seq<PartV>, keep_calls: bool, keep_responses: bool) -> Seq<
    PartV,
>
    decreases ps.len(),
{
    if ps.len() == 0 {
        Seq::empty()
    } else {
        let rest = clean_parts(ps.drop_last(), keep_calls, keep_responses);
        match clean_part(ps.last(), keep_calls, keep_responses) {
            Some(q) => rest.push(q),
            None => rest,
        }
    }
}

/// The first `k` turns of `cs` after cleaning: function calls are kept in the last two
/// turns of `cs`, function responses in the last one; turns left without parts go.
pub open spec fn clean_turns(cs: Seq<ContentV>, k: nat) -> Seq<ContentV>
    decreases k,
{
    if k == 0 || k > cs.len() {
        Seq::empty()
    } else {
        let i = k - 1;
        let rest = clean_turns(cs, (k - 1) as nat);
        let parts = clean_parts(cs[i].parts, i + 2 >= cs.len(), i + 1 == cs.len());
        if parts.len() > 0 {
            rest.push(ContentV { role: cs[i].role, parts })
        } else {
            rest
        }
    }
}

/// Appending one turn to merged turns: a turn joins the previous one where both have the
/// same role and neither holds a function call or response.
pub open spec fn merge_turn(acc: Seq<ContentV>, c: ContentV) -> Seq<ContentV> {
    if acc.len() > 0 && acc.last().role == c.role && !has_tool_part(acc.last().parts)
        && !has_tool_part(c.parts) {
        acc.update(
            acc.len() - 1,
            ContentV { role: acc.last().role, parts: acc.last().parts + c.parts },
        )
    } else {
        acc.push(c)
    }
}

/// Turns merged from the left.
pub open spec fn merge_turns(cs: Seq<ContentV>) -> Seq<ContentV>
    decreases cs.len(),
{
    if cs.len() == 0 {
        Seq::empty()
    } else {
        merge_turn(merge_turns(cs.drop_last()), cs.last())
    }
}

/// Turns without the turns of the model they begin with.
pub open spec fn drop_leading_model(cs: Seq<ContentV>) -> Seq<ContentV>
    decreases cs.len(),
{
    if cs.len() > 0 && cs[0].role == "model"@ {
        drop_leading_model(cs.drop_first())
    } else {
        cs
    }
}

/// How many turns of the model `cs` begins with.
pub open spec fn leading_models(cs: Seq<ContentV>) -> nat
    decreases cs.len(),
{
    if cs.len() > 0 && cs[0].role == "model"@ {
        1 + leading_models(cs.drop_first())
    } else {
        0
    }
}

/// The history that `sanitize_history` gives for `cs`.
pub open spec fn spec_sanitize_history(cs: Seq<ContentV>) -> Seq<ContentV> {
    drop_leading_model(merge_turns(clean_turns(cs, cs.len())))
}

fn called_tool_text(name: &String) -> (r: String)
    ensures
        r@ == called_tool_note(name@),
{
    let mut s = String::from_str("[Called tool: ");
    s.append(name.as_str());
    s.append("]");
    s
}

fn tool_finished_text(name: &String) -> (r: String)
    ensures
        r@ == tool_finished_note(name@),
{
    let mut s = String::from_str("[Tool ");
    s.append(name.as_str());
    s.append(" finished]");
    s
}

/// The cleaned form of one part.
fn clean_one(p: &Part, keep_calls: bool, keep_responses: bool) -> (r: Option<Part>)
    ensures
        match clean_part(p@, keep_calls, keep_responses) {
            Some(q) => r is Some && r->0@ == q,
            None => r is None,
        },
{
    match &p.data {
        Some(PartData::Text(t)) => {
            if is_blank(t.as_str()) {
                None
            } else {
                Some(p.duplicate())
            }
        },
        Some(PartData::FunctionCall(c)) => {
            if keep_calls {
                Some(p.duplicate())
            } else {
                Some(Part::text(called_tool_text(&c.name)))
            }
        },
        Some(PartData::FunctionResponse(resp)) => {
            if keep_responses {
                Some(p.duplicate())
            } else {
                Some(Part::text(tool_finished_text(&resp.name)))
            }
        },
        _ => None,
    }
}

/// The cleaned parts of one turn.
fn clean_turn_parts(ps: &Vec<Part>, keep_calls: bool, keep_responses: bool) -> (r: Vec<Part>)
    ensures
        parts_view(r@) == clean_parts(parts_view(ps@), keep_calls, keep_responses),
{
    let mut r: Vec<Part> = Vec::new();
    let mut i: usize = 0;
    while i < ps.len()
        invariant
            i <= ps@.len(),
            parts_view(r@) == clean_parts(
                parts_view(ps@).subrange(0, i as int),
                keep_calls,
                keep_responses,
            ),
        decreases ps@.len() - i,
    {
        let ghost before = r@;
        let q = clean_one(&ps[i], keep_calls, keep_responses);
        match q {
            Some(q) => {
                r.push(q);
                assert(parts_view(r@) =~= parts_view(before).push(r@.last()@));
            },
            None => {},
        }
        assert(parts_view(ps@).subrange(0, i + 1).drop_last() =~= parts_view(ps@).subrange(
            0,
            i as int,
        ));
        i = i + 1;
    }
    assert(parts_view(ps@).subrange(0, i as int) =~= parts_view(ps@));
    r
}

/// The cleaned turns.
fn clean_all_turns(contents: &[Content]) -> (r: Vec<Content>)
    ensures
        contents_view(r@) == clean_turns(contents_view(contents@), contents@.len()),
{
    let ghost cs = contents_view(contents@);
    let n = contents.len();
    let mut r: Vec<Content> = Vec::new();
    let mut i: usize = 0;
    while i < n
        invariant
            n == contents@.len(),
            cs == contents_view(contents@),
            i <= n,
            contents_view(r@) == clean_turns(cs, i as nat),
        decreases n - i,
    {
        let is_last_turn = i == n - 1;
        let is_second_to_last = i + 1 == n - 1;
        let parts = clean_turn_parts(
            &contents[i].parts,
            is_second_to_last || is_last_turn,
            is_last_turn,
        );
        assert(cs[i as int].parts == parts_view(contents@[i as int].parts@));
        if parts.len() > 0 {
            let ghost before = r@;
            r.push(Content { role: contents[i].role.clone(), parts });
            assert(contents_view(r@) =~= contents_view(before).push(r@.last()@));
        }
        i = i + 1;
    }
    r
}

/// Merges consecutive turns of the same role that hold no function call or response.
fn merge_all_turns(cleaned: &Vec<Content>) -> (r: Vec<Content>)
    ensures
        contents_view(r@) == merge_turns(contents_view(cleaned@)),
{
    let ghost cs = contents_view(cleaned@);
    let mut r: Vec<Content> = Vec::new();
    let mut i: usize = 0;
    while i < cleaned.len()
        invariant
            cs == contents_view(cleaned@),
            i <= cleaned@.len(),
            contents_view(r@) == merge_turns(cs.subrange(0, i as int)),
        decreases cleaned@.len() - i,
    {
        let c = cleaned[i].duplicate();
        let ghost before = contents_view(r@);
        assert(cs.subrange(0, i + 1).drop_last() =~= cs.subrange(0, i as int));
        assert(cs.subrange(0, i + 1).last() == c@);
        let mut do_merge = false;
        if r.len() > 0 {
            let last_idx = r.len() - 1;
            assert(before.last() == r@[last_idx as int]@);
            do_merge = r[last_idx].role == c.role && !any_tool_part(&r[last_idx].parts)
                && !any_tool_part(&c.parts);
        }
        if do_merge {
            let mut last = r.pop().unwrap();
            let mut extra = c.parts;
            let ghost lp = last.parts@;
            let ghost ep = extra@;
            last.parts.append(&mut extra);
            assert(parts_view(last.parts@) =~= parts_view(lp) + parts_view(ep));
            r.push(last);
            assert(contents_view(r@) =~= before.update(
                before.len() - 1,
                ContentV { role: before.last().role, parts: before.last().parts + c@.parts },
            ));
        } else {
            r.push(c);
            assert(contents_view(r@) =~= before.push(c@));
        }
        i = i + 1;
    }
    assert(cs.subrange(0, i as int) =~= cs);
    r
}

/// Prepares a history for the model. Each turn keeps its non-blank texts; function calls
/// stay only in the last two turns and function responses only in the last turn, other
/// calls and responses become short notes; turns left empty go; consecutive turns of the
/// same role that hold no call or response are merged; the turns of the model that the
/// result would begin with go.
pub fn sanitize_history(contents: &[Content]) -> (r: Vec<Content>)
    ensures
        contents_view(r@) == spec_sanitize_history(contents_view(contents@)),
{
    let cleaned = clean_all_turns(contents);
    let mut alternating = merge_all_turns(&cleaned);
    let ghost target = drop_leading_model(contents_view(alternating@));
    loop
        invariant
            drop_leading_model(contents_view(alternating@)) == target,
        ensures
            contents_view(alternating@) == target,
        decreases alternating@.len(),
    {
        if alternating.len() == 0 {
            break;
        }
        if !str_eq(alternating[0].role.as_str(), "model") {
            break;
        }
        let ghost before = alternating@;
        alternating.remove(0);
        assert(contents_view(alternating@) =~= contents_view(before).drop_first());
    }
    alternating
}

/// A part worth sending: a non-blank text, a function call or a function response.
pub open spec fn is_meaningful_part(p: PartV) -> bool {
    match p {
        Some(DataV::Text(t)) => !spec_is_blank(t),
        Some(DataV::FunctionCall(_)) => true,
        Some(DataV::FunctionResponse(_)) => true,
        _ => false,
    }
}

/// A part that is a function call only where it is a part of one of the last two turns of
/// `cs`, and a function response only where it is a part of the last turn of `cs`.
pub open spec fn from_active_turn(p: PartV, cs: Seq<ContentV>) -> bool {
    &&& (p matches Some(DataV::FunctionCall(_))) ==> ((cs.len() >= 1 && cs.last().parts.contains(
        p,
    )) || (cs.len() >= 2 && cs[cs.len() - 2].parts.contains(p)))
    &&& (p matches Some(DataV::FunctionResponse(_))) ==> (cs.len() >= 1
        && cs.last().parts.contains(p))
}

/// Every turn of `cs` holds at least one part.
pub open spec fn turns_nonempty(cs: Seq<ContentV>) -> bool {
    forall|i: int| 0 <= i < cs.len() ==> (#[trigger] cs[i]).parts.len() > 0
}

/// Every part of every turn of `cs` satisfies `f`.
pub open spec fn every_part(cs: Seq<ContentV>, f: spec_fn(PartV) -> bool) -> bool {
    forall|i: int, k: int|
        0 <= i < cs.len() && 0 <= k < cs[i].parts.len() ==> f(#[trigger] cs[i].parts[k])
}

/// Consecutive turns of `cs` have different roles, unless one of them holds a function
/// call or a function response.
pub open spec fn alternating_roles(cs: Seq<ContentV>) -> bool {
    forall|j: int|
        0 <= j && j + 1 < cs.len() ==> (#[trigger] cs[j]).role != cs[j + 1].role
            || has_tool_part(cs[j].parts) || has_tool_part(cs[j + 1].parts)
}

proof fn lemma_starts_non_blank(s: Seq<char>)
    requires
        s.len() > 0,
        !spec_is_whitespace(s[0]),
    ensures
        !spec_is_blank(s),
{
    assert(trim_start(s) == s);
    lemma_trim_end_keeps_head(s);
}

proof fn lemma_trim_end_keeps_head(s: Seq<char>)
    requires
        s.len() > 0,
        !spec_is_whitespace(s[0]),
    ensures
        trim_end(s).len() > 0,
    decreases s.len(),
{
    if s.len() > 1 && spec_is_whitespace(s.last()) {
        lemma_trim_end_keeps_head(s.drop_last());
    }
}

proof fn lemma_notes_non_blank(name: Seq<char>)
    ensures
        !spec_is_blank(called_tool_note(name)),
        !spec_is_blank(tool_finished_note(name)),
{
    reveal_strlit("[Called tool: ");
    reveal_strlit("[Tool ");
    lemma_starts_non_blank(called_tool_note(name));
    lemma_starts_non_blank(tool_finished_note(name));
}

proof fn lemma_clean_parts(ps: Seq<PartV>, kc: bool, kr: bool)
    ensures
        forall|k: int|
            0 <= k < clean_parts(ps, kc, kr).len() ==> {
                let q = #[trigger] clean_parts(ps, kc, kr)[k];
                &&& is_meaningful_part(q)
                &&& (q matches Some(DataV::FunctionCall(_))) ==> kc && ps.contains(q)
                &&& (q matches Some(DataV::FunctionResponse(_))) ==> kr && ps.contains(q)
            },
    decreases ps.len(),
{
    if ps.len() > 0 {
        lemma_clean_parts(ps.drop_last(), kc, kr);
        let rest = clean_parts(ps.drop_last(), kc, kr);
        match ps.last() {
            Some(DataV::FunctionCall(c)) => lemma_notes_non_blank(c.name),
            Some(DataV::FunctionResponse(c)) => lemma_notes_non_blank(c.name),
            _ => {},
        }
        assert forall|k: int| 0 <= k < rest.len() && ps.drop_last().contains(
            #[trigger] rest[k],
        ) implies ps.contains(rest[k]) by {
            let j = choose|j: int| 0 <= j < ps.drop_last().len() && ps.drop_last()[j] == rest[k];
            assert(ps[j] == rest[k]);
        }
        assert(ps[ps.len() - 1] == ps.last());
    }
}

proof fn lemma_clean_turns(cs: Seq<ContentV>, k: nat)
    ensures
        turns_nonempty(clean_turns(cs, k)),
        every_part(
            clean_turns(cs, k),
            |p: PartV| is_meaningful_part(p) && from_active_turn(p, cs),
        ),
    decreases k,
{
    if k > 0 && k <= cs.len() {
        lemma_clean_turns(cs, (k - 1) as nat);
        let i = k - 1;
        let kc = i + 2 >= cs.len();
        let kr = i + 1 == cs.len();
        lemma_clean_parts(cs[i].parts, kc, kr);
        let rest = clean_turns(cs, (k - 1) as nat);
        let parts = clean_parts(cs[i].parts, kc, kr);
        if parts.len() > 0 {
            let r = rest.push(ContentV { role: cs[i].role, parts });
            assert forall|a: int, b: int|
                0 <= a < r.len() && 0 <= b < r[a].parts.len() implies is_meaningful_part(
                #[trigger] r[a].parts[b],
            ) && from_active_turn(r[a].parts[b], cs) by {
                if a == r.len() - 1 {
                    let q = parts[b];
                    assert(r[a].parts[b] == q);
                    if i == cs.len() - 1 {
                        assert(cs.last() == cs[i]);
                    }
                }
            }
        }
    }
}

proof fn lemma_no_tool_concat(a: Seq<PartV>, b: Seq<PartV>)
    requires
        !has_tool_part(a),
        !has_tool_part(b),
    ensures
        !has_tool_part(a + b),
{
    assert forall|k: int| 0 <= k < (a + b).len() implies !spec_is_tool_part(#[trigger] (a + b)[k]) by {
        if k < a.len() {
            assert((a + b)[k] == a[k]);
        } else {
            assert((a + b)[k] == b[k - a.len()]);
        }
    }
}

proof fn lemma_merge_turns(cs: Seq<ContentV>, f: spec_fn(PartV) -> bool)
    requires
        turns_nonempty(cs),
        every_part(cs, f),
    ensures
        turns_nonempty(merge_turns(cs)),
        every_part(merge_turns(cs), f),
        alternating_roles(merge_turns(cs)),
    decreases cs.len(),
{
    if cs.len() > 0 {
        let pre = cs.drop_last();
        assert(turns_nonempty(pre));
        assert forall|i: int, k: int|
            0 <= i < pre.len() && 0 <= k < pre[i].parts.len() implies f(
            #[trigger] pre[i].parts[k],
        ) by {
            assert(pre[i] == cs[i]);
        }
        lemma_merge_turns(pre, f);
        let acc = merge_turns(pre);
        let c = cs.last();
        assert(c == cs[cs.len() - 1]);
        let r = merge_turn(acc, c);
        if acc.len() > 0 && acc.last().role == c.role && !has_tool_part(acc.last().parts)
            && !has_tool_part(c.parts) {
            let last = acc.last();
            let merged = ContentV { role: last.role, parts: last.parts + c.parts };
            assert(r == acc.update(acc.len() - 1, merged));
            lemma_no_tool_concat(last.parts, c.parts);
            assert forall|i: int, k: int|
                0 <= i < r.len() && 0 <= k < r[i].parts.len() implies f(
                #[trigger] r[i].parts[k],
            ) by {
                if i == r.len() - 1 {
                    if k < last.parts.len() {
                        assert(r[i].parts[k] == acc[acc.len() - 1].parts[k]);
                    } else {
                        assert(r[i].parts[k] == c.parts[k - last.parts.len()]);
                    }
                } else {
                    assert(r[i] == acc[i]);
                }
            }
            assert forall|j: int| 0 <= j && j + 1 < r.len() implies (#[trigger] r[j]).role
                != r[j + 1].role || has_tool_part(r[j].parts) || has_tool_part(
                r[j + 1].parts,
            ) by {
                assert(r[j] == acc[j]);
                if j + 1 < r.len() - 1 {
                    assert(r[j + 1] == acc[j + 1]);
                } else {
                    assert(acc[j + 1] == last);
                }
            }
            assert forall|i: int| 0 <= i < r.len() implies (#[trigger] r[i]).parts.len() > 0 by {
                if i < r.len() - 1 {
                    assert(r[i] == acc[i]);
                }
            }
        } else {
            assert(r == acc.push(c));
            assert forall|i: int, k: int|
                0 <= i < r.len() && 0 <= k < r[i].parts.len() implies f(
                #[trigger] r[i].parts[k],
            ) by {
                if i < r.len() - 1 {
                    assert(r[i] == acc[i]);
                }
            }
            assert forall|j: int| 0 <= j && j + 1 < r.len() implies (#[trigger] r[j]).role
                != r[j + 1].role || has_tool_part(r[j].parts) || has_tool_part(
                r[j + 1].parts,
            ) by {
                assert(r[j] == acc[j]);
                if j + 1 < r.len() - 1 {
                    assert(r[j + 1] == acc[j + 1]);
                }
            }
            assert forall|i: int| 0 <= i < r.len() implies (#[trigger] r[i]).parts.len() > 0 by {
                if i < r.len() - 1 {
                    assert(r[i] == acc[i]);
                }
            }
        }
    }
}

proof fn lemma_drop_is_suffix(cs: Seq<ContentV>)
    ensures
        leading_models(cs) <= cs.len(),
        drop_leading_model(cs) == cs.subrange(leading_models(cs) as int, cs.len() as int),
        drop_leading_model(cs).len() == 0 || drop_leading_model(cs)[0].role != "model"@,
    decreases cs.len(),
{
    if cs.len() > 0 && cs[0].role == "model"@ {
        lemma_drop_is_suffix(cs.drop_first());
        assert(cs.drop_first().subrange(
            leading_models(cs.drop_first()) as int,
            cs.drop_first().len() as int,
        ) =~= cs.subrange(leading_models(cs) as int, cs.len() as int));
    } else {
        assert(cs.subrange(0, cs.len() as int) =~= cs);
    }
}

proof fn lemma_drop_leading_model(cs: Seq<ContentV>, f: spec_fn(PartV) -> bool)
    requires
        turns_nonempty(cs),
        every_part(cs, f),
        alternating_roles(cs),
    ensures
        turns_nonempty(drop_leading_model(cs)),
        every_part(drop_leading_model(cs), f),
        alternating_roles(drop_leading_model(cs)),
{
    lemma_drop_is_suffix(cs);
    let r = drop_leading_model(cs);
    let d = leading_models(cs) as int;
    assert forall|i: int| 0 <= i < r.len() implies (#[trigger] r[i]).parts.len() > 0 by {
        assert(r[i] == cs[i + d]);
    }
    assert forall|i: int, k: int|
        0 <= i < r.len() && 0 <= k < r[i].parts.len() implies f(#[trigger] r[i].parts[k]) by {
        assert(r[i] == cs[i + d]);
    }
    assert forall|j: int| 0 <= j && j + 1 < r.len() implies (#[trigger] r[j]).role != r[j
        + 1].role || has_tool_part(r[j].parts) || has_tool_part(r[j + 1].parts) by {
        assert(r[j] == cs[j + d]);
        assert(r[j + 1] == cs[j + 1 + d]);
    }
}

/// A sanitized history holds no empty turn, and each of its parts is a non-blank text, a
/// function call or a function response.
pub proof fn lemma_sanitized_parts_meaningful(cs: Seq<ContentV>)
    ensures
        turns_nonempty(spec_sanitize_history(cs)),
        every_part(spec_sanitize_history(cs), |p: PartV| is_meaningful_part(p)),
{
    let f = |p: PartV| is_meaningful_part(p) && from_active_turn(p, cs);
    lemma_clean_turns(cs, cs.len());
    lemma_merge_turns(clean_turns(cs, cs.len()), f);
    lemma_drop_leading_model(merge_turns(clean_turns(cs, cs.len())), f);
    let r = spec_sanitize_history(cs);
    assert forall|i: int, k: int|
        0 <= i < r.len() && 0 <= k < r[i].parts.len() implies is_meaningful_part(
        #[trigger] r[i].parts[k],
    ) by {
        assert(f(r[i].parts[k]));
    }
}

/// In a sanitized history every function call is one that the last two turns of the
/// input hold, and every function response is one that its last turn holds.
pub proof fn lemma_sanitized_tool_parts_from_active_turn(cs: Seq<ContentV>)
    ensures
        every_part(spec_sanitize_history(cs), |p: PartV| from_active_turn(p, cs)),
{
    let f = |p: PartV| is_meaningful_part(p) && from_active_turn(p, cs);
    lemma_clean_turns(cs, cs.len());
    lemma_merge_turns(clean_turns(cs, cs.len()), f);
    lemma_drop_leading_model(merge_turns(clean_turns(cs, cs.len())), f);
    let r = spec_sanitize_history(cs);
    assert forall|i: int, k: int|
        0 <= i < r.len() && 0 <= k < r[i].parts.len() implies from_active_turn(
        #[trigger] r[i].parts[k],
        cs,
    ) by {
        assert(f(r[i].parts[k]));
    }
}

/// In a sanitized history consecutive turns have different roles, unless one of the two
/// holds a function call or a function response.
pub proof fn lemma_sanitized_roles_alternate(cs: Seq<ContentV>)
    ensures
        alternating_roles(spec_sanitize_history(cs)),
{
    let f = |p: PartV| is_meaningful_part(p) && from_active_turn(p, cs);
    lemma_clean_turns(cs, cs.len());
    lemma_merge_turns(clean_turns(cs, cs.len()), f);
    lemma_drop_leading_model(merge_turns(clean_turns(cs, cs.len())), f);
}

/// A sanitized history is empty or begins with a turn that is not the model's.
pub proof fn lemma_sanitized_starts_with_user(cs: Seq<ContentV>)
    ensures
        spec_sanitize_history(cs).len() == 0 || spec_sanitize_history(cs)[0].role != "model"@,
{
    lemma_drop_is_suffix(merge_turns(clean_turns(cs, cs.len())));
}

/// Function calls stand only in the last `a` turns of `cs` and function responses only in
/// its last `b` turns.
pub open spec fn tool_parts_at_end(cs: Seq<ContentV>, a: int, b: int) -> bool {
    forall|j: int, k: int|
        0 <= j < cs.len() && 0 <= k < cs[j].parts.len() ==> {
            &&& (#[trigger] cs[j].parts[k] matches Some(DataV::FunctionCall(_))) ==> cs.len() - j
                <= a
            &&& (cs[j].parts[k] matches Some(DataV::FunctionResponse(_))) ==> cs.len() - j <= b
        }
}

proof fn lemma_clean_turns_at_end(cs: Seq<ContentV>, k: nat)
    requires
        k <= cs.len(),
    ensures
        tool_parts_at_end(clean_turns(cs, k), 2 - (cs.len() - k), 1 - (cs.len() - k)),
    decreases k,
{
    if k > 0 {
        lemma_clean_turns_at_end(cs, (k - 1) as nat);
        let i = k - 1;
        let kc = i + 2 >= cs.len();
        let kr = i + 1 == cs.len();
        lemma_clean_parts(cs[i].parts, kc, kr);
        let rest = clean_turns(cs, (k - 1) as nat);
        let parts = clean_parts(cs[i].parts, kc, kr);
        if parts.len() > 0 {
            let r = rest.push(ContentV { role: cs[i].role, parts });
            assert forall|j: int, m: int| 0 <= j < r.len() && 0 <= m < r[j].parts.len() implies {
                &&& (#[trigger] r[j].parts[m] matches Some(DataV::FunctionCall(_))) ==> r.len() - j
                    <= 2 - (cs.len() - k)
                &&& (r[j].parts[m] matches Some(DataV::FunctionResponse(_))) ==> r.len() - j <= 1
                    - (cs.len() - k)
            } by {
                if j == r.len() - 1 {
                    assert(r[j].parts[m] == parts[m]);
                } else {
                    assert(r[j] == rest[j]);
                }
            }
        }
    }
}

proof fn lemma_merge_turns_at_end(cs: Seq<ContentV>, a: int, b: int)
    requires
        tool_parts_at_end(cs, a, b),
    ensures
        tool_parts_at_end(merge_turns(cs), a, b),
    decreases cs.len(),
{
    if cs.len() > 0 {
        let pre = cs.drop_last();
        assert forall|j: int, k: int| 0 <= j < pre.len() && 0 <= k < pre[j].parts.len() implies {
            &&& (#[trigger] pre[j].parts[k] matches Some(DataV::FunctionCall(_))) ==> pre.len() - j
                <= a - 1
            &&& (pre[j].parts[k] matches Some(DataV::FunctionResponse(_))) ==> pre.len() - j <= b
                - 1
        } by {
            assert(pre[j] == cs[j]);
        }
        lemma_merge_turns_at_end(pre, a - 1, b - 1);
        let acc = merge_turns(pre);
        let c = cs.last();
        assert(c == cs[cs.len() - 1]);
        let r = merge_turn(acc, c);
        if acc.len() > 0 && acc.last().role == c.role && !has_tool_part(acc.last().parts)
            && !has_tool_part(c.parts) {
            let last = acc.last();
            lemma_no_tool_concat(last.parts, c.parts);
            assert forall|j: int, k: int| 0 <= j < r.len() && 0 <= k < r[j].parts.len() implies {
                &&& (#[trigger] r[j].parts[k] matches Some(DataV::FunctionCall(_))) ==> r.len() - j
                    <= a
                &&& (r[j].parts[k] matches Some(DataV::FunctionResponse(_))) ==> r.len() - j <= b
            } by {
                if j == r.len() - 1 {
                    assert(r[j].parts == last.parts + c.parts);
                    assert(!spec_is_tool_part((last.parts + c.parts)[k]));
                } else {
                    assert(r[j] == acc[j]);
                }
            }
        } else {
            assert(r == acc.push(c));
            assert forall|j: int, k: int| 0 <= j < r.len() && 0 <= k < r[j].parts.len() implies {
                &&& (#[trigger] r[j].parts[k] matches Some(DataV::FunctionCall(_))) ==> r.len() - j
                    <= a
                &&& (r[j].parts[k] matches Some(DataV::FunctionResponse(_))) ==> r.len() - j <= b
            } by {
                if j == r.len() - 1 {
                    assert(r[j].parts[k] == cs[cs.len() - 1].parts[k]);
                } else {
                    assert(r[j] == acc[j]);
                }
            }
        }
    }
}

/// In a sanitized history, function calls stand only in its last two turns and function
/// responses only in its last turn.
pub proof fn lemma_sanitized_tool_parts_at_end(cs: Seq<ContentV>)
    ensures
        tool_parts_at_end(spec_sanitize_history(cs), 2, 1),
{
    let c = clean_turns(cs, cs.len());
    lemma_clean_turns_at_end(cs, cs.len());
    lemma_merge_turns_at_end(c, 2, 1);
    let m = merge_turns(c);
    lemma_drop_is_suffix(m);
    let r = spec_sanitize_history(cs);
    let d = leading_models(m) as int;
    assert forall|j: int, k: int| 0 <= j < r.len() && 0 <= k < r[j].parts.len() implies {
        &&& (#[trigger] r[j].parts[k] matches Some(DataV::FunctionCall(_))) ==> r.len() - j <= 2
        &&& (r[j].parts[k] matches Some(DataV::FunctionResponse(_))) ==> r.len() - j <= 1
    } by {
        assert(r[j] == m[j + d]);
    }
}

proof fn lemma_clean_parts_fixed(ps: Seq<PartV>, kc: bool, kr: bool)
    requires
        forall|k: int| 0 <= k < ps.len() ==> is_meaningful_part(#[trigger] ps[k]),
        forall|k: int|
            0 <= k < ps.len() && (#[trigger] ps[k] matches Some(DataV::FunctionCall(_))) ==> kc,
        forall|k: int|
            0 <= k < ps.len() && (#[trigger] ps[k] matches Some(DataV::FunctionResponse(_)))
                ==> kr,
    ensures
        clean_parts(ps, kc, kr) == ps,
    decreases ps.len(),
{
    if ps.len() > 0 {
        let pre = ps.drop_last();
        assert forall|k: int| 0 <= k < pre.len() implies is_meaningful_part(#[trigger] pre[k]) by {
            assert(pre[k] == ps[k]);
        }
        assert forall|k: int|
            0 <= k < pre.len() && (#[trigger] pre[k] matches Some(DataV::FunctionCall(_))) implies kc by {
            assert(pre[k] == ps[k]);
        }
        assert forall|k: int|
            0 <= k < pre.len() && (#[trigger] pre[k] matches Some(DataV::FunctionResponse(_))) implies kr by {
            assert(pre[k] == ps[k]);
        }
        lemma_clean_parts_fixed(pre, kc, kr);
        let l = ps[ps.len() - 1];
        assert(l == ps.last());
        assert(is_meaningful_part(l));
        assert(clean_part(l, kc, kr) == Some(l));
        assert(pre.push(l) =~= ps);
    }
}

proof fn lemma_clean_turns_fixed(r: Seq<ContentV>, k: nat)
    requires
        k <= r.len(),
        turns_nonempty(r),
        every_part(r, |p: PartV| is_meaningful_part(p)),
        tool_parts_at_end(r, 2, 1),
    ensures
        clean_turns(r, k) == r.subrange(0, k as int),
    decreases k,
{
    if k > 0 {
        lemma_clean_turns_fixed(r, (k - 1) as nat);
        let i = k - 1;
        let ps = r[i].parts;
        let kc = i + 2 >= r.len();
        let kr = i + 1 == r.len();
        assert forall|m: int| 0 <= m < ps.len() implies is_meaningful_part(#[trigger] ps[m]) by {
            assert(r[i].parts[m] == ps[m]);
        }
        assert forall|m: int|
            0 <= m < ps.len() && (#[trigger] ps[m] matches Some(DataV::FunctionCall(_))) implies kc by {
            assert(r[i].parts[m] == ps[m]);
        }
        assert forall|m: int|
            0 <= m < ps.len() && (#[trigger] ps[m] matches Some(DataV::FunctionResponse(_))) implies kr by {
            assert(r[i].parts[m] == ps[m]);
        }
        lemma_clean_parts_fixed(ps, kc, kr);
        assert(r.subrange(0, i as int).push(ContentV { role: r[i].role, parts: ps }) =~= r.subrange(
            0,
            k as int,
        ));
    } else {
        assert(r.subrange(0, 0) =~= Seq::<ContentV>::empty());
    }
}

proof fn lemma_merge_turns_fixed(r: Seq<ContentV>)
    requires
        alternating_roles(r),
    ensures
        merge_turns(r) == r,
    decreases r.len(),
{
    if r.len() > 0 {
        let pre = r.drop_last();
        assert forall|j: int| 0 <= j && j + 1 < pre.len() implies (#[trigger] pre[j]).role
            != pre[j + 1].role || has_tool_part(pre[j].parts) || has_tool_part(
            pre[j + 1].parts,
        ) by {
            assert(pre[j] == r[j]);
            assert(pre[j + 1] == r[j + 1]);
        }
        lemma_merge_turns_fixed(pre);
        if pre.len() > 0 {
            assert(r[r.len() - 2] == pre.last());
            assert(r[r.len() - 1] == r.last());
        }
        assert(pre.push(r.last()) =~= r);
    }
}

/// Sanitizing a sanitized history gives it back unchanged.
pub proof fn lemma_sanitize_idempotent(cs: Seq<ContentV>)
    ensures
        spec_sanitize_history(spec_sanitize_history(cs)) == spec_sanitize_history(cs),
{
    let r = spec_sanitize_history(cs);
    lemma_sanitized_parts_meaningful(cs);
    lemma_sanitized_roles_alternate(cs);
    lemma_sanitized_tool_parts_at_end(cs);
    lemma_sanitized_starts_with_user(cs);
    lemma_clean_turns_fixed(r, r.len());
    assert(r.subrange(0, r.len() as int) =~= r);
    lemma_merge_turns_fixed(r);
}

/// The parts of all the turns, turn by turn, in order.
pub open spec fn all_parts(cs: Seq<ContentV>) -> Seq<PartV>
    decreases cs.len(),
{
    if cs.len() == 0 {
        Seq::empty()
    } else {
        all_parts(cs.drop_last()) + cs.last().parts
    }
}

proof fn lemma_merge_keeps_parts(cs: Seq<ContentV>)
    ensures
        all_parts(merge_turns(cs)) == all_parts(cs),
        merge_turns(cs).len() <= cs.len(),
    decreases cs.len(),
{
    if cs.len() > 0 {
        let pre = cs.drop_last();
        lemma_merge_keeps_parts(pre);
        let acc = merge_turns(pre);
        let c = cs.last();
        let r = merge_turn(acc, c);
        if acc.len() > 0 && acc.last().role == c.role && !has_tool_part(acc.last().parts)
            && !has_tool_part(c.parts) {
            let last = acc.last();
            assert(r.drop_last() =~= acc.drop_last());
            assert(r.last() == ContentV { role: last.role, parts: last.parts + c.parts });
            assert(all_parts(acc) == all_parts(acc.drop_last()) + last.parts);
            assert(all_parts(acc.drop_last()) + (last.parts + c.parts) =~= all_parts(
                acc.drop_last(),
            ) + last.parts + c.parts);
        } else {
            assert(r.drop_last() =~= acc);
            assert(r.last() == c);
        }
    }
}

/// Sanitizing loses no content but the leading turns of the model: merging keeps every
/// cleaned part, in order (a merged turn holds the first turn's parts followed by the
/// second's), and the sanitized history is the merged turns without the turns of the
/// model they begin with.
pub proof fn lemma_sanitize_keeps_content(cs: Seq<ContentV>)
    ensures
        all_parts(merge_turns(clean_turns(cs, cs.len()))) == all_parts(clean_turns(cs, cs.len())),
        exists|d: int|
            0 <= d <= merge_turns(clean_turns(cs, cs.len())).len() && (forall|i: int|
                0 <= i < d ==> (#[trigger] merge_turns(clean_turns(cs, cs.len()))[i]).role
                    == "model"@) && spec_sanitize_history(cs) == merge_turns(
                clean_turns(cs, cs.len()),
            ).subrange(d, merge_turns(clean_turns(cs, cs.len())).len() as int),
{
    let m = merge_turns(clean_turns(cs, cs.len()));
    lemma_merge_keeps_parts(clean_turns(cs, cs.len()));
    lemma_drop_is_suffix(m);
    lemma_leading_models_are_model(m);
    let d = leading_models(m) as int;
    assert(0 <= d <= m.len() && (forall|i: int| 0 <= i < d ==> (#[trigger] m[i]).role == "model"@)
        && spec_sanitize_history(cs) == m.subrange(d, m.len() as int));
}

proof fn lemma_leading_models_are_model(cs: Seq<ContentV>)
    ensures
        forall|i: int| 0 <= i < leading_models(cs) ==> (#[trigger] cs[i]).role == "model"@,
    decreases cs.len(),
{
    if cs.len() > 0 && cs[0].role == "model"@ {
        lemma_leading_models_are_model(cs.drop_first());
        lemma_drop_is_suffix(cs);
        assert forall|i: int| 0 <= i < leading_models(cs) implies (#[trigger] cs[i]).role
            == "model"@ by {
            if i > 0 {
                assert(cs[i] == cs.drop_first()[i - 1]);
            }
        }
    }
}

/// Cleaning a turn's parts treats each part on its own, in order: the cleaned parts of two
/// runs are the first run's followed by the second's; a non-blank text, a kept call or a
/// kept response stays as it is, a call or response that is not kept becomes one text
/// part, and anything else goes.
pub proof fn lemma_clean_parts_each(a: Seq<PartV>, b: Seq<PartV>, p: PartV, kc: bool, kr: bool)
    ensures
        clean_parts(a + b, kc, kr) == clean_parts(a, kc, kr) + clean_parts(b, kc, kr),
        ((p matches Some(DataV::Text(t)) && !spec_is_blank(t)) || (kc && p matches Some(
            DataV::FunctionCall(_),
        )) || (kr && p matches Some(DataV::FunctionResponse(_)))) ==> clean_parts(
            seq![p],
            kc,
            kr,
        ) == seq![p],
        ((!kc && p matches Some(DataV::FunctionCall(_))) || (!kr && p matches Some(
            DataV::FunctionResponse(_),
        ))) ==> (clean_parts(seq![p], kc, kr).len() == 1 && clean_parts(seq![p], kc, kr)[0] matches Some(
            DataV::Text(_),
        )),
        !is_meaningful_part(p) ==> clean_parts(seq![p], kc, kr).len() == 0,
    decreases b.len(),
{
    if b.len() == 0 {
        assert(a + b =~= a);
        assert(clean_parts(a, kc, kr) + clean_parts(b, kc, kr) =~= clean_parts(a, kc, kr));
    } else {
        lemma_clean_parts_each(a, b.drop_last(), p, kc, kr);
        assert((a + b).drop_last() =~= a + b.drop_last());
        assert((a + b).last() == b.last());
        match clean_part(b.last(), kc, kr) {
            Some(q) => {
                assert((clean_parts(a, kc, kr) + clean_parts(b.drop_last(), kc, kr)).push(q)
                    =~= clean_parts(a, kc, kr) + clean_parts(b.drop_last(), kc, kr).push(q));
            },
            None => {},
        }
    }
    let one = seq![p];
    assert(one.drop_last() =~= Seq::<PartV>::empty());
    assert(one.last() == p);
    assert(clean_parts(one.drop_last(), kc, kr) == Seq::<PartV>::empty());
    match clean_part(p, kc, kr) {
        Some(q) => {
            assert(Seq::<PartV>::empty().push(q) =~= seq![q]);
        },
        None => {},
    }
}

} // verus!
