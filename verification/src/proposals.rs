//! Learned binding proposals: the questions that name them and the
//! bindings the answers choose.
use vstd::prelude::*;
use vstd::string::StrSliceExecFns;

use crate::ask::{
    answerable, answered, invalid_answer, question_view, question_views, unanswered, AskError, Answer,
    InteractiveAsker, Question, QuestionKind, QuestionView, ScriptError, ScriptedAsker,
};
use crate::json::jv;
use crate::binding::{
    binding_name_problem, valid_binding_name_spec, validate_binding_name, Binding, BindingType,
};
use crate::binding::{binding_name_char, kebab, kebab_spec, law_kebab_shape, origin, origin_spec};
use crate::text::{
    last_segment, last_segment_start, before, chars_of, copy_str, decimal, decimal_string, has_prefix, is_digit, lemma_decimal_injective,
    lemma_decimal_shape, lower_seq, lower_vec, push_str, split_once, str_eq, string_of,
    string_of_range, trim, trim_str, views,
};

verus! {

/// The answer that declines a proposal.
pub open spec fn skip_answer() -> Seq<char> {
    "skip"@
}

/// A binding `learn` suggests for an environment.
#[derive(Clone, Debug, PartialEq, Eq)]
pub struct Proposal {
    /// Proposed binding name (lower-kebab of the physical name).
    pub name: String,
    pub kind: BindingType,
    /// The value to record: the physical name, an ARM id, or an origin.
    pub value: String,
    /// Where the reference was found: `(file, json path)`.
    pub sources: Vec<(String, String)>,
}

/// The id of the question that names proposal `name` in `env`.
pub open spec fn learn_question_id(env: Seq<char>, name: Seq<char>) -> Seq<char> {
    "learn."@ + env + "."@ + name
}

/// The prompt of the question that names a proposal.
pub open spec fn learn_prompt(kind: BindingType, value: Seq<char>) -> Seq<char> {
    "Name for the "@ + kind.name_spec() + " '"@ + value + "' (or 'skip'):"@
}

/// `q` is the question `proposals_to_questions` asks about `p` in `env`.
pub open spec fn is_learn_question(q: Question, env: Seq<char>, p: Proposal) -> bool {
    &&& q.id@ == learn_question_id(env, p.name@)
    &&& q.prompt@ == learn_prompt(p.kind, p.value@)
    &&& q.kind == QuestionKind::Text
    &&& q.candidates@.len() == 0
    &&& !q.allow_other
    &&& q.default matches Some(d) && d@ == p.name@
}

/// One `learn.<env>.<name>` question per proposal: a text answer naming the
/// binding (defaulting to the proposed name), or `skip`.
pub fn proposals_to_questions(env: &str, proposals: &[Proposal]) -> (qs: Vec<Question>)
    ensures
        qs@.len() == proposals@.len(),
        forall|i: int| 0 <= i < qs@.len() ==> is_learn_question(#[trigger] qs@[i], env@, proposals@[i]),
{
    let mut qs: Vec<Question> = Vec::new();
    let mut i: usize = 0;
    while i < proposals.len()
        invariant
            0 <= i <= proposals@.len(),
            qs@.len() == i,
            forall|k: int| 0 <= k < i ==> is_learn_question(#[trigger] qs@[k], env@, proposals@[k]),
        decreases proposals@.len() - i,
    {
        let p = &proposals[i];
        let mut id = copy_str("learn.");
        push_str(&mut id, env);
        push_str(&mut id, ".");
        push_str(&mut id, p.name.as_str());
        let mut prompt = copy_str("Name for the ");
        push_str(&mut prompt, p.kind.as_str());
        push_str(&mut prompt, " '");
        push_str(&mut prompt, p.value.as_str());
        push_str(&mut prompt, "' (or 'skip'):");
        let q = Question::text(id, prompt).with_default(p.name.clone());
        qs.push(q);
        i += 1;
    }
    qs
}

/// The text an answer carries (none for a confirmation).
pub open spec fn answer_text(a: Answer) -> Seq<char> {
    match a {
        Answer::Choice(s) => s@,
        Answer::Text(s) => s@,
        Answer::Confirm(_) => Seq::empty(),
    }
}

/// The texts of a sequence of answers.
pub open spec fn answer_texts(ans: Seq<Answer>) -> Seq<Seq<char>> {
    ans.map_values(|a: Answer| answer_text(a))
}

/// A (trimmed) answer that declines the proposal: empty, or `skip` in any
/// ASCII case.
pub open spec fn declines(raw: Seq<char>) -> bool {
    raw.len() == 0 || lower_seq(raw) == skip_answer()
}

/// The refusal for a batch of answers that does not match the proposals.
pub open spec fn count_mismatch_msg(answers: nat, proposals: nat) -> Seq<char> {
    "got "@ + decimal(answers) + " answer(s) for "@ + decimal(proposals)
        + " binding proposal(s) \u{2014} every proposal needs exactly one answer (use 'skip' to decline)"@
}

/// The refusal for two proposals renamed to the same name.
pub open spec fn duplicate_name_msg(raw: Seq<char>) -> Seq<char> {
    "two proposals were both renamed to '"@ + raw + "' \u{2014} bindings need distinct names"@
}

/// A chosen binding: its name, type and value.
pub type Chosen = (Seq<char>, BindingType, Seq<char>);

/// `out` already holds a binding named `name`.
pub open spec fn names_contain(out: Seq<Chosen>, name: Seq<char>) -> bool {
    exists|i: int| 0 <= i < out.len() && (#[trigger] out[i]).0 == name
}

/// The bindings chosen by the first `k` answers (proposals in order), or
/// the first refusal.
pub open spec fn chosen_upto(ps: Seq<Proposal>, texts: Seq<Seq<char>>, k: int) -> Result<Seq<Chosen>, Seq<char>>
    decreases k,
{
    if k <= 0 {
        Ok(Seq::empty())
    } else {
        match chosen_upto(ps, texts, k - 1) {
            Err(e) => Err(e),
            Ok(out) => {
                let raw = trim(texts[k - 1]);
                if declines(raw) {
                    Ok(out)
                } else if !valid_binding_name_spec(raw) {
                    Err(binding_name_problem(raw))
                } else if names_contain(out, raw) {
                    Err(duplicate_name_msg(raw))
                } else {
                    Ok(out.push((raw, ps[k - 1].kind, ps[k - 1].value@)))
                }
            },
        }
    }
}

/// What `answers_to_bindings` gives for proposals and answer texts.
pub open spec fn answers_to_bindings_spec(ps: Seq<Proposal>, texts: Seq<Seq<char>>) -> Result<Seq<Chosen>, Seq<char>> {
    if ps.len() != texts.len() {
        Err(count_mismatch_msg(texts.len(), ps.len()))
    } else {
        chosen_upto(ps, texts, ps.len() as int)
    }
}

/// A refusal, once made, is the result of every longer prefix.
proof fn lemma_chosen_err_sticks(ps: Seq<Proposal>, texts: Seq<Seq<char>>, k: int, n: int)
    requires
        0 <= k <= n,
        chosen_upto(ps, texts, k) is Err,
    ensures
        chosen_upto(ps, texts, n) == chosen_upto(ps, texts, k),
    decreases n - k,
{
    if k < n {
        lemma_chosen_err_sticks(ps, texts, k, n - 1);
    }
}

/// The bindings of an output vector, as plain values.
pub open spec fn chosen_views(out: Seq<(String, Binding)>) -> Seq<Chosen> {
    out.map_values(|x: (String, Binding)| (x.0@, x.1.kind, x.1.value@))
}

/// Whether a binding named `name` is among the first `n` of `out`.
fn name_taken(out: &Vec<(String, Binding)>, name: &str) -> (r: bool)
    ensures
        r == names_contain(chosen_views(out@), name@),
{
    let mut i: usize = 0;
    while i < out.len()
        invariant
            0 <= i <= out@.len(),
            forall|k: int| 0 <= k < i ==> out@[k].0@ != name@,
        decreases out@.len() - i,
    {
        if str_eq(out[i].0.as_str(), name) {
            assert(chosen_views(out@)[i as int].0 == name@);
            return true;
        }
        i += 1;
    }
    assert forall|k: int| 0 <= k < out@.len() implies (#[trigger] chosen_views(out@)[k]).0 != name@ by {
        assert(chosen_views(out@)[k].0 == out@[k].0@);
    }
    false
}

/// `raw` is `skip` in any ASCII case.
pub fn is_skip(raw: &str) -> (r: bool)
    ensures
        r == (lower_seq(raw@) == skip_answer()),
{
    let l = string_of(&lower_vec(&chars_of(raw)));
    str_eq(l.as_str(), "skip")
}

/// Turn the answers to `proposals_to_questions` into the bindings to write,
/// dropping every proposal answered `skip` (or with an empty name).
pub fn answers_to_bindings(proposals: &[Proposal], answers: &[Answer]) -> (r: Result<Vec<(String, Binding)>, String>)
    ensures
        match (r, answers_to_bindings_spec(proposals@, answer_texts(answers@))) {
            (Ok(out), Ok(c)) => chosen_views(out@) == c,
            (Err(e), Err(m)) => e@ == m,
            _ => false,
        },
{
    let ghost texts = answer_texts(answers@);
    if proposals.len() != answers.len() {
        let mut e = copy_str("got ");
        let a = decimal_string(answers.len());
        push_str(&mut e, a.as_str());
        push_str(&mut e, " answer(s) for ");
        let p = decimal_string(proposals.len());
        push_str(&mut e, p.as_str());
        push_str(
            &mut e,
            " binding proposal(s) \u{2014} every proposal needs exactly one answer (use 'skip' to decline)",
        );
        return Err(e);
    }
    let mut out: Vec<(String, Binding)> = Vec::new();
    assert(chosen_views(out@) =~= Seq::<Chosen>::empty());
    let mut i: usize = 0;
    while i < proposals.len()
        invariant
            proposals@.len() == answers@.len(),
            texts == answer_texts(answers@),
            0 <= i <= proposals@.len(),
            chosen_upto(proposals@, texts, i as int) == Ok::<Seq<Chosen>, Seq<char>>(chosen_views(out@)),
        decreases proposals@.len() - i,
    {
        let text: &str = match answers[i].as_str() {
            Some(t) => t,
            None => "",
        };
        proof {
            reveal_strlit("");
        }
        assert(text@ =~= texts[i as int]);
        let raw = trim_str(text);
        if raw.as_str().unicode_len() == 0 || is_skip(raw.as_str()) {
            assert(declines(raw@));
        } else {
            if let Err(e) = validate_binding_name(raw.as_str()) {
                proof {
                    lemma_chosen_err_sticks(proposals@, texts, i + 1, proposals@.len() as int);
                }
                return Err(e);
            }
            if name_taken(&out, raw.as_str()) {
                let mut e = copy_str("two proposals were both renamed to '");
                push_str(&mut e, raw.as_str());
                push_str(&mut e, "' \u{2014} bindings need distinct names");
                proof {
                    lemma_chosen_err_sticks(proposals@, texts, i + 1, proposals@.len() as int);
                }
                return Err(e);
            }
            let ghost before = out@;
            let b = Binding { kind: proposals[i].kind, value: proposals[i].value.clone() };
            out.push((raw, b));
            assert(chosen_views(out@) =~= chosen_views(before).push(
                (trim(texts[i as int]), proposals@[i as int].kind, proposals@[i as int].value@),
            ));
        }
        i += 1;
    }
    Ok(out)
}

/// Every proposal paired with its trimmed answer, as a candidate binding.
pub open spec fn all_choices(ps: Seq<Proposal>, texts: Seq<Seq<char>>) -> Seq<Chosen> {
    Seq::new(ps.len(), |i: int| (trim(texts[i]), ps[i].kind, ps[i].value@))
}

/// The candidate does not decline its proposal.
pub open spec fn kept() -> spec_fn(Chosen) -> bool {
    |c: Chosen| !declines(c.0)
}

/// The candidates whose answer does not decline, in proposal order.
pub open spec fn kept_choices(ps: Seq<Proposal>, texts: Seq<Seq<char>>) -> Seq<Chosen> {
    all_choices(ps, texts).filter(kept())
}

/// Every name is a valid binding name and no name repeats.
pub open spec fn names_fit(cs: Seq<Chosen>) -> bool {
    &&& forall|i: int| 0 <= i < cs.len() ==> valid_binding_name_spec(#[trigger] cs[i].0)
    &&& forall|i: int, j: int| 0 <= i < j < cs.len() ==> cs[i].0 != cs[j].0
}

proof fn lemma_names_fit_push(cs: Seq<Chosen>, c: Chosen)
    ensures
        names_fit(cs.push(c)) == (names_fit(cs) && valid_binding_name_spec(c.0) && !names_contain(cs, c.0)),
{
    let out = cs.push(c);
    if names_fit(out) {
        assert forall|i: int| 0 <= i < cs.len() implies valid_binding_name_spec(#[trigger] cs[i].0) by {
            assert(out[i] == cs[i]);
        }
        assert forall|i: int, j: int| 0 <= i < j < cs.len() implies cs[i].0 != cs[j].0 by {
            assert(out[i] == cs[i] && out[j] == cs[j]);
        }
        assert(out[cs.len() as int] == c);
        if names_contain(cs, c.0) {
            let i = choose|i: int| 0 <= i < cs.len() && (#[trigger] cs[i]).0 == c.0;
            assert(out[i] == cs[i]);
        }
    }
    if names_fit(cs) && valid_binding_name_spec(c.0) && !names_contain(cs, c.0) {
        assert forall|i: int| 0 <= i < out.len() implies valid_binding_name_spec(#[trigger] out[i].0) by {
            if i < cs.len() {
                assert(out[i] == cs[i]);
            }
        }
        assert forall|i: int, j: int| 0 <= i < j < out.len() implies out[i].0 != out[j].0 by {
            assert(out[i] == cs[i]);
            if j < cs.len() {
                assert(out[j] == cs[j]);
            }
        }
    }
}

proof fn lemma_chosen_upto_filter(ps: Seq<Proposal>, texts: Seq<Seq<char>>, k: int)
    requires
        ps.len() == texts.len(),
        0 <= k <= ps.len(),
    ensures
        ({
            let kp = all_choices(ps, texts).take(k).filter(kept());
            &&& chosen_upto(ps, texts, k) is Ok <==> names_fit(kp)
            &&& names_fit(kp) ==> chosen_upto(ps, texts, k) == Ok::<Seq<Chosen>, Seq<char>>(kp)
        }),
    decreases k,
{
    let all = all_choices(ps, texts);
    if k == 0 {
        assert(all.take(0).filter(kept()) =~= Seq::<Chosen>::empty());
    } else {
        lemma_chosen_upto_filter(ps, texts, k - 1);
        let c = all[k - 1];
        let prev = all.take(k - 1).filter(kept());
        assert(all.take(k) =~= all.take(k - 1).push(c));
        all.take(k - 1).lemma_filter_push(c, kept());
        let raw = trim(texts[k - 1]);
        assert(c == (raw, ps[k - 1].kind, ps[k - 1].value@));
        lemma_names_fit_push(prev, c);
    }
}

/// Law: the bindings a batch of answers chooses are exactly the proposals
/// whose trimmed answer is neither empty nor `skip`, in order, each named
/// by its answer, when those names are valid and pairwise distinct; when
/// they are not, the batch is refused.
pub proof fn law_answers_choose_the_kept_proposals(ps: Seq<Proposal>, texts: Seq<Seq<char>>)
    requires
        ps.len() == texts.len(),
    ensures
        answers_to_bindings_spec(ps, texts) is Ok <==> names_fit(kept_choices(ps, texts)),
        names_fit(kept_choices(ps, texts)) ==> answers_to_bindings_spec(ps, texts) == Ok::<Seq<Chosen>, Seq<char>>(
            kept_choices(ps, texts),
        ),
{
    lemma_chosen_upto_filter(ps, texts, ps.len() as int);
    assert(all_choices(ps, texts).take(ps.len() as int) =~= all_choices(ps, texts));
}

/// Law: the bindings chosen from a batch of answers have valid and
/// pairwise distinct names, at most one per proposal.
pub proof fn law_chosen_names_valid_and_distinct(ps: Seq<Proposal>, texts: Seq<Seq<char>>, k: int)
    requires
        chosen_upto(ps, texts, k) is Ok,
    ensures
        ({
            let out = chosen_upto(ps, texts, k)->Ok_0;
            &&& out.len() <= if k < 0 { 0 } else { k }
            &&& forall|i: int| 0 <= i < out.len() ==> valid_binding_name_spec(#[trigger] out[i].0)
            &&& forall|i: int, j: int| 0 <= i < j < out.len() ==> out[i].0 != out[j].0
        }),
    decreases k,
{
    if k > 0 {
        law_chosen_names_valid_and_distinct(ps, texts, k - 1);
        let prev = chosen_upto(ps, texts, k - 1)->Ok_0;
        let raw = trim(texts[k - 1]);
        if !declines(raw) {
            let out = prev.push((raw, ps[k - 1].kind, ps[k - 1].value@));
            assert forall|i: int, j: int| 0 <= i < j < out.len() implies out[i].0 != out[j].0 by {
                if j == out.len() - 1 {
                    assert(!names_contain(prev, raw));
                    assert(prev[i] == out[i]);
                }
            }
        }
    }
}

// ---------------------------------------------------------------------------
// Naming learned proposals
// ---------------------------------------------------------------------------

/// The physical name a binding value points at: the last segment of an ARM
/// id, otherwise the value itself.
pub open spec fn physical_name_spec(value: Seq<char>) -> Seq<char> {
    if has_prefix(value, "/subscriptions/"@) {
        last_segment(value)
    } else {
        value
    }
}

/// For an `api` value: the first label of the origin's host.
pub open spec fn api_label(value: Seq<char>) -> Seq<char> {
    let host = match split_once(origin_spec(value), "://"@) {
        Some((_, h)) => h,
        None => value,
    };
    before(host, "."@)
}

/// The name a proposal is based on before collisions are resolved.
pub open spec fn proposal_base(kind: BindingType, value: Seq<char>) -> Seq<char> {
    let b = if kind == BindingType::Api {
        kebab_spec(api_label(value))
    } else {
        kebab_spec(physical_name_spec(value))
    };
    if b.len() == 0 {
        kind.name_spec()
    } else {
        b
    }
}

/// A usable base: lower-kebab, non-empty, no `-` at either end.
pub open spec fn base_ok(b: Seq<char>) -> bool {
    &&& b.len() > 0
    &&& forall|i: int| 0 <= i < b.len() ==> binding_name_char(#[trigger] b[i])
    &&& b[0] != '-'
    &&& b.last() != '-'
}

/// The `n`-th name tried for `base`: `base`, then `base-2`, `base-3`, ...
pub open spec fn candidate(base: Seq<char>, n: nat) -> Seq<char> {
    if n <= 1 {
        base
    } else {
        base + "-"@ + decimal(n)
    }
}

/// `name` may be taken: valid, and not among `taken`.
pub open spec fn is_free(name: Seq<char>, taken: Seq<Seq<char>>) -> bool {
    valid_binding_name_spec(name) && !taken.contains(name)
}

/// `name` is the first free candidate for `base`.
pub open spec fn first_free(name: Seq<char>, base: Seq<char>, taken: Seq<Seq<char>>) -> bool {
    exists|n: nat|
        n >= 1 && name == candidate(base, n) && is_free(name, taken) && forall|m: nat|
            1 <= m < n ==> !is_free(#[trigger] candidate(base, m), taken)
}

/// Every candidate after the first is a valid binding name.
proof fn lemma_candidate_valid(base: Seq<char>, n: nat)
    requires
        base_ok(base),
        n >= 2,
    ensures
        valid_binding_name_spec(candidate(base, n)),
{
    reveal_strlit("-");
    let c = candidate(base, n);
    let d = decimal(n);
    lemma_decimal_shape(n);
    assert forall|i: int| 0 <= i < c.len() implies binding_name_char(#[trigger] c[i]) by {
        if i < base.len() {
            assert(c[i] == base[i]);
        } else if i == base.len() {
            assert(c[i] == '-');
        } else {
            assert(c[i] == d[i - base.len() - 1]);
        }
    }
    assert(c[0] == base[0]);
    assert(c.last() == d.last());
    assert(c[base.len() as int] == '-');
    assert(c != "search"@ && c != "foundry"@) by {
        reveal_strlit("search");
        reveal_strlit("foundry");
        let k = base.len() as int;
        if c == "search"@ {
            assert("search"@ =~= seq!['s', 'e', 'a', 'r', 'c', 'h']);
            assert(seq!['s', 'e', 'a', 'r', 'c', 'h'][k] != '-');
        }
        if c == "foundry"@ {
            assert("foundry"@ =~= seq!['f', 'o', 'u', 'n', 'd', 'r', 'y']);
            assert(seq!['f', 'o', 'u', 'n', 'd', 'r', 'y'][k] != '-');
        }
    }
}

/// Different candidates for one base differ.
proof fn lemma_candidate_injective(base: Seq<char>, a: nat, b: nat)
    requires
        a >= 2,
        b >= 2,
        candidate(base, a) == candidate(base, b),
    ensures
        a == b,
{
    reveal_strlit("-");
    let ca = candidate(base, a);
    let k = base.len() + 1;
    assert(ca.subrange(k as int, ca.len() as int) =~= decimal(a));
    assert(candidate(base, b).subrange(k as int, ca.len() as int) =~= decimal(b));
    lemma_decimal_injective(a, b);
}

/// At most `taken.len()` of the candidates `2..=n` can all be taken.
proof fn lemma_candidates_fit(base: Seq<char>, taken: Seq<Seq<char>>, n: nat)
    requires
        n >= 2,
        forall|m: nat| 2 <= m <= n ==> taken.contains(#[trigger] candidate(base, m)),
    ensures
        n - 1 <= taken.len(),
{
    broadcast use vstd::seq_lib::seq_to_set_is_finite;
    let cs = Seq::new((n - 1) as nat, |i: int| candidate(base, (i + 2) as nat));
    assert(cs.no_duplicates()) by {
        assert forall|i: int, j: int| 0 <= i < cs.len() && 0 <= j < cs.len() && i != j implies cs[i] != cs[j] by {
            if cs[i] == cs[j] {
                lemma_candidate_injective(base, (i + 2) as nat, (j + 2) as nat);
            }
        }
    }
    cs.unique_seq_to_set();
    taken.lemma_cardinality_of_set();
    assert(cs.to_set().subset_of(taken.to_set())) by {
        assert forall|x: Seq<char>| cs.to_set().contains(x) implies taken.to_set().contains(x) by {
            let i = choose|i: int| 0 <= i < cs.len() && cs[i] == x;
            assert(taken.contains(candidate(base, (i + 2) as nat)));
        }
    }
    vstd::set_lib::lemma_len_subset(cs.to_set(), taken.to_set());
}

/// `views(v)` contains `s`.
pub fn contains_string(v: &Vec<String>, s: &str) -> (r: bool)
    ensures
        r == views(v@).contains(s@),
{
    let mut i: usize = 0;
    while i < v.len()
        invariant
            0 <= i <= v@.len(),
            forall|k: int| 0 <= k < i ==> v@[k]@ != s@,
        decreases v@.len() - i,
    {
        if str_eq(v[i].as_str(), s) {
            assert(views(v@)[i as int] == s@);
            return true;
        }
        i += 1;
    }
    assert forall|k: int| 0 <= k < views(v@).len() implies views(v@)[k] != s@ by {
        assert(views(v@)[k] == v@[k]@);
    }
    false
}

/// The first free candidate for `base` given the names already `taken`.
fn allocate_name(base: &str, taken: &Vec<String>) -> (name: String)
    requires
        base_ok(base@),
        taken@.len() + 2 <= usize::MAX,
    ensures
        first_free(name@, base@, views(taken@)),
{
    let ghost ts = views(taken@);
    let mut name = copy_str(base);
    let mut n: usize = 1;
    while validate_binding_name(name.as_str()).is_err() || contains_string(taken, name.as_str())
        invariant
            base_ok(base@),
            ts == views(taken@),
            taken@.len() + 2 <= usize::MAX,
            1 <= n <= taken@.len() + 2,
            name@ == candidate(base@, n as nat),
            forall|m: nat| 1 <= m < n ==> !is_free(#[trigger] candidate(base@, m), ts),
        decreases taken@.len() + 2 - n,
    {
        proof {
            if n >= 2 {
                assert forall|m: nat| 2 <= m <= n implies ts.contains(#[trigger] candidate(base@, m)) by {
                    lemma_candidate_valid(base@, m);
                }
                lemma_candidates_fit(base@, ts, n as nat);
            }
            assert(!is_free(candidate(base@, n as nat), ts));
        }
        n += 1;
        let mut next = copy_str(base);
        push_str(&mut next, "-");
        let digits = decimal_string(n);
        push_str(&mut next, digits.as_str());
        name = next;
    }
    name
}

/// The base name for a proposal (see `proposal_base`).
fn base_for(kind: BindingType, value: &str) -> (b: String)
    ensures
        b@ == proposal_base(kind, value@),
        base_ok(b@),
{
    let k = if kind == BindingType::Api {
        let o = origin(value);
        let ov = chars_of(o.as_str());
        let sep = chars_of("://");
        let host: String = match crate::text::find_exec(&ov, &sep) {
            Some(i) => {
                proof {
                    crate::text::lemma_find_spec(ov@, sep@, 0);
                    assert(crate::text::occurs_at(ov@, sep@, i as int));
                }
                let n3: usize = sep.len();
                let ol: usize = ov.len();
                assert(i + n3 <= ol);
                string_of_range(&ov, i + n3, ol)
            },
            None => copy_str(value),
        };
        let hv = chars_of(host.as_str());
        proof {
            reveal_strlit(".");
            assert("."@ =~= seq!['.']);
        }
        let label = match crate::text::find_char(&hv, '.') {
            Some(j) => {
                proof {
                    crate::text::lemma_find_spec(hv@, seq!['.'], 0);
                    assert(crate::text::occurs_at(hv@, seq!['.'], j as int));
                }
                string_of_range(&hv, 0, j)
            },
            None => host,
        };
        kebab(label.as_str())
    } else {
        let v = chars_of(value);
        let prefix = chars_of("/subscriptions/");
        let phys = if crate::text::starts_with(&v, &prefix) {
            let a = last_segment_start(&v, v.len());
            assert(v@.subrange(0, v@.len() as int) =~= v@);
            string_of_range(&v, a, v.len())
        } else {
            copy_str(value)
        };
        kebab(phys.as_str())
    };
    proof {
        if kind == BindingType::Api {
            law_kebab_shape(api_label(value@));
        } else {
            law_kebab_shape(physical_name_spec(value@));
        }
    }
    if k.as_str().unicode_len() == 0 {
        let b = copy_str(kind.as_str());
        proof {
            reveal_strlit("storage");
            reveal_strlit("identity");
            reveal_strlit("key-vault");
            reveal_strlit("function-app");
            reveal_strlit("api");
            reveal_strlit("ai-services");
        }
        b
    } else {
        k
    }
}

/// Name learned proposals in order: each gets the first free candidate of
/// its base (a `-2`, `-3`, ... suffix on collision with an existing binding
/// name or an earlier proposal).
pub fn name_proposals(grouped: Vec<Proposal>, existing: &Vec<String>) -> (out: Vec<Proposal>)
    requires
        existing@.len() + grouped@.len() + 2 <= usize::MAX,
    ensures
        out@.len() == grouped@.len(),
        forall|i: int| 0 <= i < out@.len() ==> {
            &&& (#[trigger] out@[i]).kind == grouped@[i].kind
            &&& out@[i].value == grouped@[i].value
            &&& out@[i].sources == grouped@[i].sources
            &&& first_free(
                out@[i].name@,
                proposal_base(grouped@[i].kind, grouped@[i].value@),
                views(existing@) + out@.subrange(0, i).map_values(|p: Proposal| p.name@),
            )
        },
{
    let mut taken: Vec<String> = Vec::new();
    let mut i: usize = 0;
    while i < existing.len()
        invariant
            0 <= i <= existing@.len(),
            taken@.len() == i,
            forall|k: int| 0 <= k < i ==> #[trigger] taken@[k]@ == existing@[k]@,
        decreases existing@.len() - i,
    {
        taken.push(existing[i].clone());
        i += 1;
    }
    assert(views(taken@) =~= views(existing@));
    let ghost g = grouped@;
    let mut out: Vec<Proposal> = Vec::new();
    let mut rest = grouped;
    assert(rest@ =~= g.subrange(0, g.len() as int));
    while rest.len() > 0
        invariant
            g.len() == out@.len() + rest@.len(),
            existing@.len() + g.len() + 2 <= usize::MAX,
            rest@ == g.subrange(out@.len() as int, g.len() as int),
            views(taken@) == views(existing@) + out@.map_values(|p: Proposal| p.name@),
            taken@.len() == existing@.len() + out@.len(),
            forall|k: int| 0 <= k < out@.len() ==> {
                &&& (#[trigger] out@[k]).kind == g[k].kind
                &&& out@[k].value == g[k].value
                &&& out@[k].sources == g[k].sources
                &&& first_free(
                    out@[k].name@,
                    proposal_base(g[k].kind, g[k].value@),
                    views(existing@) + out@.subrange(0, k).map_values(|p: Proposal| p.name@),
                )
            },
        decreases rest@.len(),
    {
        let p = rest.remove(0);
        let ghost k = out@.len() as int;
        assert(p == g[k]);
        let base = base_for(p.kind, p.value.as_str());
        let name = allocate_name(base.as_str(), &taken);
        let ghost before = out@;
        let ghost before_taken = taken@;
        taken.push(name.clone());
        out.push(Proposal { name, kind: p.kind, value: p.value, sources: p.sources });
        proof {
            assert(out@.subrange(0, k) =~= before);
            assert(views(taken@) =~= views(before_taken).push(name@));
            assert(out@.map_values(|p: Proposal| p.name@) =~= before.map_values(|p: Proposal| p.name@).push(name@));
            assert(views(taken@) =~= views(existing@) + out@.map_values(|p: Proposal| p.name@));
            assert forall|j: int| 0 <= j < k implies out@.subrange(0, j) == before.subrange(0, j) by {
                assert(out@.subrange(0, j) =~= before.subrange(0, j));
            }
            assert(rest@ =~= g.subrange(out@.len() as int, g.len() as int));
        }
    }
    out
}

/// Law: learned names are valid, never repeat an existing binding name, and
/// never repeat each other.
pub proof fn law_learned_names_fresh(names: Seq<Seq<char>>, bases: Seq<Seq<char>>, existing: Seq<Seq<char>>)
    requires
        names.len() == bases.len(),
        forall|i: int| 0 <= i < names.len() ==> first_free(#[trigger] names[i], bases[i], existing + names.subrange(0, i)),
    ensures
        forall|i: int| 0 <= i < names.len() ==> valid_binding_name_spec(#[trigger] names[i]),
        forall|i: int| 0 <= i < names.len() ==> !existing.contains(#[trigger] names[i]),
        forall|i: int, j: int| 0 <= i < j < names.len() ==> names[i] != names[j],
{
    assert forall|i: int| 0 <= i < names.len() implies valid_binding_name_spec(#[trigger] names[i]) && !existing.contains(names[i]) by {
        let t = existing + names.subrange(0, i);
        assert(first_free(names[i], bases[i], t));
        assert(is_free(names[i], t));
        if existing.contains(names[i]) {
            let e = choose|e: int| 0 <= e < existing.len() && existing[e] == names[i];
            assert(t[e] == names[i]);
        }
    }
    assert forall|i: int, j: int| 0 <= i < j < names.len() implies names[i] != names[j] by {
        let t = existing + names.subrange(0, j);
        assert(first_free(names[j], bases[j], t));
        assert(t[existing.len() + i] == names[i]);
    }
}

/// Why resolving proposals failed.
#[derive(Debug)]
pub enum ResolveError {
    /// The answers were refused.
    Usage(String),
    /// A question could not be answered from what was supplied.
    Ask(AskError),
    /// A scripted run stopped: a supplied answer did not fit, or some
    /// questions still need an answer.
    Script(ScriptError),
}

/// The recorded answer texts for the questions about `ps` in `env`.
pub open spec fn supplied_texts(m: Map<Seq<char>, Seq<char>>, env: Seq<char>, ps: Seq<Proposal>) -> Seq<Seq<char>> {
    ps.map_values(|p: Proposal| m[learn_question_id(env, p.name@)])
}

/// Every proposal's question has a recorded answer.
pub open spec fn all_supplied(m: Map<Seq<char>, Seq<char>>, env: Seq<char>, ps: Seq<Proposal>) -> bool {
    forall|i: int| 0 <= i < ps.len() ==> m.contains_key(#[trigger] learn_question_id(env, ps[i].name@))
}

/// Ask about every proposal and return the bindings to write. With no
/// proposals nothing is asked.
pub fn resolve_proposals(asker: &mut InteractiveAsker, env: &str, proposals: &[Proposal]) -> (r: Result<Vec<(String, Binding)>, ResolveError>)
    ensures
        final(asker).answers.view() == old(asker).answers.view(),
        ({
            let m = old(asker).answers.view();
            if proposals@.len() == 0 {
                r matches Ok(out) && out@.len() == 0
            } else if all_supplied(m, env@, proposals@) {
                match (r, answers_to_bindings_spec(proposals@, supplied_texts(m, env@, proposals@))) {
                    (Ok(out), Ok(c)) => chosen_views(out@) == c,
                    (Err(ResolveError::Usage(e)), Err(msg)) => e@ == msg,
                    _ => false,
                }
            } else {
                r matches Err(ResolveError::Ask(AskError::NeedsPrompt))
            }
        }),
{
    if proposals.len() == 0 {
        return Ok(Vec::new());
    }
    let ghost m = asker.answers.view();
    let questions = proposals_to_questions(env, proposals);
    match asker.ask_all(questions.as_slice()) {
        Err(e) => {
            proof {
                let i = choose|i: int| 0 <= i < questions@.len() && !answerable(m, #[trigger] questions@[i]);
                assert(is_learn_question(questions@[i], env@, proposals@[i]));
                assert(!m.contains_key(learn_question_id(env@, proposals@[i].name@)));
            }
            match e {
                AskError::NeedsPrompt => Err(ResolveError::Ask(AskError::NeedsPrompt)),
                AskError::Invalid(msg) => Err(ResolveError::Ask(AskError::Invalid(msg))),
            }
        },
        Ok(answers) => {
            proof {
                assert forall|i: int| 0 <= i < proposals@.len() implies m.contains_key(
                    #[trigger] learn_question_id(env@, proposals@[i].name@),
                ) by {
                    assert(is_learn_question(questions@[i], env@, proposals@[i]));
                    assert(answered(m, questions@[i], answers@[i]));
                }
                assert forall|i: int| 0 <= i < proposals@.len() implies #[trigger] answer_texts(answers@)[i]
                    == supplied_texts(m, env@, proposals@)[i] by {
                    assert(is_learn_question(questions@[i], env@, proposals@[i]));
                    assert(answered(m, questions@[i], answers@[i]));
                }
                assert(answer_texts(answers@) =~= supplied_texts(m, env@, proposals@));
            }
            match answers_to_bindings(proposals, answers.as_slice()) {
                Ok(out) => Ok(out),
                Err(e) => Err(ResolveError::Usage(e)),
            }
        },
    }
}


/// The view of the question asked about `p` in `env`.
pub open spec fn learn_question_view(env: Seq<char>, p: Proposal) -> QuestionView {
    (learn_question_id(env, p.name@), QuestionKind::Text, learn_prompt(p.kind, p.value@), Seq::empty(), false, Some(p.name@))
}

/// `p`'s question has no supplied answer in `m`.
pub open spec fn unsupplied(m: Map<Seq<char>, Seq<char>>, env: Seq<char>) -> spec_fn(Proposal) -> bool {
    |p: Proposal| !m.contains_key(learn_question_id(env, p.name@))
}

/// The questions about the proposals with no supplied answer, in order.
pub open spec fn unsupplied_questions(m: Map<Seq<char>, Seq<char>>, env: Seq<char>, ps: Seq<Proposal>) -> Seq<QuestionView> {
    ps.filter(unsupplied(m, env)).map_values(|p: Proposal| learn_question_view(env, p))
}

proof fn lemma_unanswered_learn_questions(m: Map<Seq<char>, Seq<char>>, env: Seq<char>, qs: Seq<Question>, ps: Seq<Proposal>)
    requires
        qs.len() == ps.len(),
        forall|i: int| 0 <= i < qs.len() ==> is_learn_question(#[trigger] qs[i], env, ps[i]),
    ensures
        question_views(qs.filter(unanswered(m))) == unsupplied_questions(m, env, ps),
    decreases qs.len(),
{
    if qs.len() == 0 {
        assert(qs.filter(unanswered(m)) =~= Seq::<Question>::empty());
        assert(ps.filter(unsupplied(m, env)) =~= Seq::<Proposal>::empty());
        assert(question_views(qs.filter(unanswered(m))) =~= unsupplied_questions(m, env, ps));
    } else {
        let q0 = qs.drop_last();
        let p0 = ps.drop_last();
        assert forall|i: int| 0 <= i < q0.len() implies is_learn_question(#[trigger] q0[i], env, p0[i]) by {
            assert(q0[i] == qs[i]);
            assert(is_learn_question(qs[i], env, ps[i]));
        }
        lemma_unanswered_learn_questions(m, env, q0, p0);
        let q = qs.last();
        let p = ps.last();
        assert(is_learn_question(qs[qs.len() - 1], env, ps[ps.len() - 1]));
        assert(q.candidates@.map_values(|c: crate::ask::Candidate| (c.value@, c.label@)) =~= Seq::empty());
        assert(question_view(q) == learn_question_view(env, p));
        assert(qs =~= q0.push(q));
        assert(ps =~= p0.push(p));
        q0.lemma_filter_push(q, unanswered(m));
        p0.lemma_filter_push(p, unsupplied(m, env));
        assert(qs.filter(unanswered(m)) == if unanswered(m)(q) {
            q0.filter(unanswered(m)).push(q)
        } else {
            q0.filter(unanswered(m))
        });
        assert(ps.filter(unsupplied(m, env)) == if unsupplied(m, env)(p) {
            p0.filter(unsupplied(m, env)).push(p)
        } else {
            p0.filter(unsupplied(m, env))
        });
        if unanswered(m)(q) {
            assert(question_views(qs.filter(unanswered(m))) =~= question_views(q0.filter(unanswered(m))).push(question_view(q)));
            assert(unsupplied_questions(m, env, ps) =~= unsupplied_questions(m, env, p0).push(learn_question_view(env, p)));
        } else {
            assert(question_views(qs.filter(unanswered(m))) =~= question_views(q0.filter(unanswered(m))));
            assert(unsupplied_questions(m, env, ps) =~= unsupplied_questions(m, env, p0));
        }
    }
}

/// Ask a scripted asker about every proposal and return the bindings to
/// write. With no proposals nothing is asked. A text answer always fits,
/// so a scripted run stops only when some proposal's question has no
/// supplied answer: the outcome then lists every such question, in order,
/// under the asker's command and context.
pub fn resolve_proposals_scripted(asker: &mut ScriptedAsker, env: &str, proposals: &[Proposal]) -> (r: Result<Vec<(String, Binding)>, ResolveError>)
    ensures
        final(asker).answers.view() == old(asker).answers.view(),
        final(asker).command@ == old(asker).command@,
        jv(final(asker).context) == jv(old(asker).context),
        ({
            let m = old(asker).answers.view();
            if proposals@.len() == 0 {
                r matches Ok(out) && out@.len() == 0
            } else if all_supplied(m, env@, proposals@) {
                match (r, answers_to_bindings_spec(proposals@, supplied_texts(m, env@, proposals@))) {
                    (Ok(out), Ok(c)) => chosen_views(out@) == c,
                    (Err(ResolveError::Usage(e)), Err(msg)) => e@ == msg,
                    _ => false,
                }
            } else {
                r matches Err(ResolveError::Script(ScriptError::NeedsInput(ni)))
                    && ni.command@ == old(asker).command@
                    && jv(ni.context) == jv(old(asker).context)
                    && question_views(ni.questions@) == unsupplied_questions(m, env@, proposals@)
            }
        }),
{
    if proposals.len() == 0 {
        return Ok(Vec::new());
    }
    let ghost m = asker.answers.view();
    let questions = proposals_to_questions(env, proposals);
    match asker.ask_all(questions.as_slice()) {
        Err(ScriptError::Invalid(e)) => {
            proof {
                let k = choose|k: int| 0 <= k < questions@.len() && invalid_answer(m, #[trigger] questions@[k]);
                assert(is_learn_question(questions@[k], env@, proposals@[k]));
            }
            Err(ResolveError::Script(ScriptError::Invalid(e)))
        },
        Err(ScriptError::NeedsInput(ni)) => {
            proof {
                lemma_unanswered_learn_questions(m, env@, questions@, proposals@);
                if all_supplied(m, env@, proposals@) {
                    assert(proposals@.all(|x: Proposal| !unsupplied(m, env@)(x)));
                    proposals@.lemma_all_neg_filter_empty(unsupplied(m, env@));
                    assert(unsupplied_questions(m, env@, proposals@).len() == 0);
                }
            }
            Err(ResolveError::Script(ScriptError::NeedsInput(ni)))
        },
        Ok(answers) => {
            proof {
                assert forall|i: int| 0 <= i < proposals@.len() implies m.contains_key(
                    #[trigger] learn_question_id(env@, proposals@[i].name@),
                ) by {
                    assert(is_learn_question(questions@[i], env@, proposals@[i]));
                    assert(answered(m, questions@[i], answers@[i]));
                }
                assert forall|i: int| 0 <= i < proposals@.len() implies #[trigger] answer_texts(answers@)[i]
                    == supplied_texts(m, env@, proposals@)[i] by {
                    assert(is_learn_question(questions@[i], env@, proposals@[i]));
                    assert(answered(m, questions@[i], answers@[i]));
                }
                assert(answer_texts(answers@) =~= supplied_texts(m, env@, proposals@));
            }
            match answers_to_bindings(proposals, answers.as_slice()) {
                Ok(out) => Ok(out),
                Err(e) => Err(ResolveError::Usage(e)),
            }
        },
    }
}

} // verus!
