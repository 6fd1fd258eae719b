//! Question protocol: the shared shape guided flows use to ask for input,
//! answered from pre-supplied `--answer id=value` pairs or, failing that,
//! by prompting.
use vstd::prelude::*;

use crate::diff_output::JsonValue;
use crate::json::{Json, jv, deep_copy, members_of, items_of, lemma_jv_unfold};
use crate::text::{
    decimal, decimal_string, join, join_strings, views,
    chars_of, copy_str, find_char, lemma_find_spec, lower_seq, lower_vec, push_str, split_once,
    str_eq, string_of, string_of_range, strip_prefix, trim, trim_vec,
};

verus! {

/// Id prefixes every `--answer <id>=<value>` is validated against.
pub open spec fn known_id_prefixes() -> Seq<Seq<char>> {
    seq!["confirm.protected."@]
}

/// What a question asks for.
#[derive(Clone, Copy, Debug, PartialEq, Eq, Structural)]
pub enum QuestionKind {
    Choice,
    Text,
    Confirm,
    ConfirmEnv,
}

impl QuestionKind {
    /// The kind's name in the `needs-input` document.
    pub open spec fn name_spec(self) -> Seq<char> {
        match self {
            QuestionKind::Choice => "choice"@,
            QuestionKind::Text => "text"@,
            QuestionKind::Confirm => "confirm"@,
            QuestionKind::ConfirmEnv => "confirm-env"@,
        }
    }

    /// The kind's name, e.g. `confirm-env`.
    pub fn as_str(self) -> (s: &'static str)
        ensures
            s@ == self.name_spec(),
    {
        match self {
            QuestionKind::Choice => "choice",
            QuestionKind::Text => "text",
            QuestionKind::Confirm => "confirm",
            QuestionKind::ConfirmEnv => "confirm-env",
        }
    }
}

/// One offered value of a choice question.
#[derive(Clone, Debug)]
pub struct Candidate {
    pub value: String,
    pub label: String,
}

/// A question for the user or a script.
#[derive(Clone, Debug)]
pub struct Question {
    pub id: String,
    pub kind: QuestionKind,
    pub prompt: String,
    pub candidates: Vec<Candidate>,
    pub allow_other: bool,
    pub default: Option<String>,
}

impl Question {
    /// A choice among `candidates`.
    pub fn choice(id: String, prompt: String, candidates: Vec<Candidate>) -> (q: Question)
        ensures
            q.id == id && q.prompt == prompt && q.candidates == candidates,
            q.kind == QuestionKind::Choice,
            !q.allow_other && q.default is None,
    {
        Question { id, kind: QuestionKind::Choice, prompt, candidates, allow_other: false, default: None }
    }

    /// A free-text question.
    pub fn text(id: String, prompt: String) -> (q: Question)
        ensures
            q.id == id && q.prompt == prompt && q.candidates@.len() == 0,
            q.kind == QuestionKind::Text,
            !q.allow_other && q.default is None,
    {
        Question { id, kind: QuestionKind::Text, prompt, candidates: Vec::new(), allow_other: false, default: None }
    }

    /// A yes/no question defaulting to `default_yes`.
    pub fn confirm(id: String, prompt: String, default_yes: bool) -> (q: Question)
        ensures
            q.id == id && q.prompt == prompt && q.candidates@.len() == 0,
            q.kind == QuestionKind::Confirm,
            !q.allow_other,
            q.default matches Some(d) && d@ == (if default_yes { "yes"@ } else { "no"@ }),
    {
        let d = if default_yes { copy_str("yes") } else { copy_str("no") };
        Question { id, kind: QuestionKind::Confirm, prompt, candidates: Vec::new(), allow_other: false, default: Some(d) }
    }

    /// A protected-environment confirmation: `id` = `confirm.protected.<env>`;
    /// the answer must equal `env` exactly (see `coerce`).
    pub fn confirm_env(env: &str, operation: &str) -> (q: Question)
        ensures
            q.id@ == "confirm.protected."@ + env@,
            q.prompt@ == "Environment '"@ + env@ + "' is protected. Type its name to confirm "@ + operation@ + ":"@,
            q.kind == QuestionKind::ConfirmEnv,
            q.candidates@.len() == 0,
            !q.allow_other && q.default is None,
    {
        let mut id = copy_str("confirm.protected.");
        push_str(&mut id, env);
        let mut prompt = copy_str("Environment '");
        push_str(&mut prompt, env);
        push_str(&mut prompt, "' is protected. Type its name to confirm ");
        push_str(&mut prompt, operation);
        push_str(&mut prompt, ":");
        Question { id, kind: QuestionKind::ConfirmEnv, prompt, candidates: Vec::new(), allow_other: false, default: None }
    }

    /// The same question with a default answer.
    pub fn with_default(self, d: String) -> (q: Question)
        ensures
            q.default == Some(d),
            q.id == self.id && q.kind == self.kind && q.prompt == self.prompt,
            q.candidates == self.candidates && q.allow_other == self.allow_other,
    {
        let mut q = self;
        q.default = Some(d);
        q
    }

    /// The same question, also accepting values outside the candidates.
    pub fn allow_other(self) -> (q: Question)
        ensures
            q.allow_other,
            q.id == self.id && q.kind == self.kind && q.prompt == self.prompt,
            q.candidates == self.candidates && q.default == self.default,
    {
        let mut q = self;
        q.allow_other = true;
        q
    }
}

/// An answer, shaped by the question's kind.
#[derive(Clone, Debug, PartialEq, Eq)]
pub enum Answer {
    Choice(String),
    Text(String),
    Confirm(bool),
}

impl Answer {
    /// The text of a choice or text answer.
    pub fn as_str(&self) -> (r: Option<&str>)
        ensures
            match self {
                Answer::Choice(s) | Answer::Text(s) => r matches Some(t) && t@ == s@,
                Answer::Confirm(_) => r is None,
            },
    {
        match self {
            Answer::Choice(s) | Answer::Text(s) => Some(s.as_str()),
            Answer::Confirm(_) => None,
        }
    }

    /// The verdict of a confirmation.
    pub fn as_bool(&self) -> (r: Option<bool>)
        ensures
            match self {
                Answer::Confirm(b) => r == Some(*b),
                _ => r is None,
            },
    {
        match self {
            Answer::Confirm(b) => Some(*b),
            _ => None,
        }
    }
}

/// The environment a `confirm.protected.<env>` id names (the whole id when
/// it lacks the prefix).
pub open spec fn confirm_env_name(id: Seq<char>) -> Seq<char> {
    match strip_prefix(id, "confirm.protected."@) {
        Some(e) => e,
        None => id,
    }
}

/// The candidate values of a question.
pub open spec fn candidate_values(q: &Question) -> Seq<Seq<char>> {
    q.candidates@.map_values(|c: Candidate| c.value@)
}

/// What `coerce` makes of `raw` for `q`: the answer (its kind and text or
/// verdict), or the refusal.
pub open spec fn coerce_spec(q: &Question, raw: Seq<char>) -> Result<(QuestionKind, Seq<char>, bool), Seq<char>> {
    match q.kind {
        QuestionKind::Choice => if candidate_values(q).contains(raw) || q.allow_other {
            Ok((QuestionKind::Choice, raw, false))
        } else {
            Err("invalid answer for '"@ + q.id@ + "': '"@ + raw + "' is not one of the offered candidates"@)
        },
        QuestionKind::Text => Ok((QuestionKind::Text, raw, false)),
        QuestionKind::Confirm => {
            let l = lower_seq(raw);
            if l == "yes"@ || l == "y"@ || l == "true"@ {
                Ok((QuestionKind::Confirm, Seq::empty(), true))
            } else if l == "no"@ || l == "n"@ || l == "false"@ {
                Ok((QuestionKind::Confirm, Seq::empty(), false))
            } else {
                Err("invalid answer for '"@ + q.id@ + "': expected yes/no"@)
            }
        },
        QuestionKind::ConfirmEnv => {
            let env = confirm_env_name(q.id@);
            if raw == env {
                Ok((QuestionKind::ConfirmEnv, Seq::empty(), true))
            } else {
                Err("invalid answer for '"@ + q.id@ + "': must type the environment name '"@ + env + "' exactly"@)
            }
        },
    }
}

/// An answer matches what `coerce_spec` describes.
pub open spec fn answer_matches(a: Answer, kind: QuestionKind, text: Seq<char>, b: bool) -> bool {
    match kind {
        QuestionKind::Choice => a matches Answer::Choice(s) && s@ == text,
        QuestionKind::Text => a matches Answer::Text(s) && s@ == text,
        QuestionKind::Confirm | QuestionKind::ConfirmEnv => a == Answer::Confirm(b),
    }
}

/// `q`'s environment name (for confirm-env questions).
fn confirm_env_of(id: &String) -> (e: String)
    ensures
        e@ == confirm_env_name(id@),
{
    let v = chars_of(id.as_str());
    let p = chars_of("confirm.protected.");
    if crate::text::starts_with(&v, &p) {
        string_of_range(&v, p.len(), v.len())
    } else {
        id.clone()
    }
}

/// Coerce a raw string answer into the answer `q.kind` calls for,
/// validating against candidates, yes/no, or the protected env's name.
pub fn coerce(q: &Question, raw: &str) -> (r: Result<Answer, String>)
    ensures
        match (r, coerce_spec(q, raw@)) {
            (Ok(a), Ok((k, t, b))) => answer_matches(a, k, t, b),
            (Err(e), Err(m)) => e@ == m,
            _ => false,
        },
{
    match q.kind {
        QuestionKind::Choice => {
            let mut found = false;
            let mut i: usize = 0;
            while i < q.candidates.len()
                invariant
                    0 <= i <= q.candidates@.len(),
                    found == exists|k: int| 0 <= k < i && candidate_values(q)[k] == raw@,
                decreases q.candidates@.len() - i,
            {
                if str_eq(q.candidates[i].value.as_str(), raw) {
                    found = true;
                }
                assert(candidate_values(q)[i as int] == q.candidates@[i as int].value@);
                i += 1;
            }
            if found || q.allow_other {
                Ok(Answer::Choice(copy_str(raw)))
            } else {
                let mut e = copy_str("invalid answer for '");
                push_str(&mut e, q.id.as_str());
                push_str(&mut e, "': '");
                push_str(&mut e, raw);
                push_str(&mut e, "' is not one of the offered candidates");
                Err(e)
            }
        },
        QuestionKind::Text => Ok(Answer::Text(copy_str(raw))),
        QuestionKind::Confirm => {
            let l = string_of(&lower_vec(&chars_of(raw)));
            let ls = l.as_str();
            if str_eq(ls, "yes") || str_eq(ls, "y") || str_eq(ls, "true") {
                Ok(Answer::Confirm(true))
            } else if str_eq(ls, "no") || str_eq(ls, "n") || str_eq(ls, "false") {
                Ok(Answer::Confirm(false))
            } else {
                let mut e = copy_str("invalid answer for '");
                push_str(&mut e, q.id.as_str());
                push_str(&mut e, "': expected yes/no");
                Err(e)
            }
        },
        QuestionKind::ConfirmEnv => {
            let env = confirm_env_of(&q.id);
            if str_eq(raw, env.as_str()) {
                Ok(Answer::Confirm(true))
            } else {
                let mut e = copy_str("invalid answer for '");
                push_str(&mut e, q.id.as_str());
                push_str(&mut e, "': must type the environment name '");
                push_str(&mut e, env.as_str());
                push_str(&mut e, "' exactly");
                Err(e)
            }
        },
    }
}

/// Law: a protected-environment confirmation is only ever granted by typing
/// the environment's name exactly.
pub proof fn law_confirm_env_needs_exact_name(q: &Question, raw: Seq<char>)
    requires
        q.kind == QuestionKind::ConfirmEnv,
    ensures
        coerce_spec(q, raw) is Ok <==> raw == confirm_env_name(q.id@),
        coerce_spec(q, raw) matches Ok((_, _, b)) ==> b,
{
}

/// Parse a `--answer id=value` flag: split at the first `=`; the id must
/// not be empty.
pub open spec fn parse_answer_flag_spec(s: Seq<char>) -> Result<(Seq<char>, Seq<char>), Seq<char>> {
    match split_once(s, "="@) {
        Some((id, value)) => if id.len() > 0 {
            Ok((id, value))
        } else {
            Err("invalid --answer '"@ + s + "': expected <id>=<value>"@)
        },
        None => Err("invalid --answer '"@ + s + "': expected <id>=<value>"@),
    }
}

/// Parse a `--answer id=value` flag.
pub fn parse_answer_flag(s: &str) -> (r: Result<(String, String), String>)
    ensures
        match (r, parse_answer_flag_spec(s@)) {
            (Ok((a, b)), Ok((x, y))) => a@ == x && b@ == y,
            (Err(e), Err(m)) => e@ == m,
            _ => false,
        },
{
    let v = chars_of(s);
    let len = v.len();
    proof {
        reveal_strlit("=");
        assert("="@ == seq!['=']);
        lemma_find_spec(v@, seq!['='], 0);
    }
    match find_char(&v, '=') {
        Some(i) if i > 0 => Ok((string_of_range(&v, 0, i), string_of_range(&v, i + 1, len))),
        _ => {
            let mut e = copy_str("invalid --answer '");
            push_str(&mut e, s);
            push_str(&mut e, "': expected <id>=<value>");
            Err(e)
        },
    }
}

/// Pre-supplied answers by question id; an id appears at most once.
pub struct AnswerMap {
    entries: Vec<(String, String)>,
}

/// The value recorded for `id` in an entry sequence.
pub open spec fn lookup_spec(es: Seq<(String, String)>, id: Seq<char>) -> Option<Seq<char>>
    decreases es.len(),
{
    if es.len() == 0 {
        None
    } else if es.last().0@ == id {
        Some(es.last().1@)
    } else {
        lookup_spec(es.drop_last(), id)
    }
}

impl AnswerMap {
    /// The recorded answers as a map from id to value.
    pub closed spec fn view(&self) -> Map<Seq<char>, Seq<char>> {
        Map::new(|id: Seq<char>| lookup_spec(self.entries@, id) is Some, |id: Seq<char>| lookup_spec(self.entries@, id).unwrap())
    }

    /// No answers.
    pub fn new() -> (m: AnswerMap)
        ensures
            m.view() == Map::<Seq<char>, Seq<char>>::empty(),
    {
        let m = AnswerMap { entries: Vec::new() };
        assert(m.view() =~= Map::<Seq<char>, Seq<char>>::empty());
        m
    }

    /// Record `value` for `id`, replacing any earlier answer.
    pub fn insert(&mut self, id: String, value: String)
        ensures
            final(self).view() == old(self).view().insert(id@, value@),
    {
        let ghost before = self.view();
        self.entries.push((id, value));
        proof {
            let es = self.entries@;
            assert(es.drop_last() == old(self).entries@);
            assert(self.view() =~= before.insert(id@, value@));
        }
    }

    /// The answer recorded for `id`.
    pub fn get(&self, id: &str) -> (r: Option<&String>)
        ensures
            match r {
                Some(v) => self.view().contains_key(id@) && self.view()[id@] == v@,
                None => !self.view().contains_key(id@),
            },
    {
        let mut i = self.entries.len();
        assert(self.entries@.subrange(0, i as int) =~= self.entries@);
        while i > 0
            invariant
                i <= self.entries@.len(),
                lookup_spec(self.entries@, id@) == lookup_spec(self.entries@.subrange(0, i as int), id@),
            decreases i,
        {
            let e = &self.entries[i - 1];
            assert(self.entries@.subrange(0, i as int).last() == self.entries@[i - 1]);
            assert(self.entries@.subrange(0, i as int).drop_last() =~= self.entries@.subrange(0, i - 1));
            if str_eq(e.0.as_str(), id) {
                return Some(&e.1);
            }
            i -= 1;
        }
        None
    }

    /// Answers from `(id, value)` pairs, later pairs replacing earlier ones.
    pub fn from_pairs(pairs: Vec<(String, String)>) -> (m: AnswerMap)
        ensures
            forall|id: Seq<char>| #[trigger] m.view().contains_key(id) <==> lookup_spec(pairs@, id) is Some,
            forall|id: Seq<char>| m.view().contains_key(id) ==> #[trigger] m.view()[id] == lookup_spec(pairs@, id).unwrap(),
    {
        AnswerMap { entries: pairs }
    }
}

/// The answers `m` with the flags `fs` laid over it in order: each
/// well-formed flag `id=value` records `value` for `id`, so a later flag
/// wins over an earlier one and over `m`.
pub open spec fn flags_over(m: Map<Seq<char>, Seq<char>>, fs: Seq<Seq<char>>) -> Map<Seq<char>, Seq<char>>
    decreases fs.len(),
{
    if fs.len() == 0 {
        m
    } else {
        let prev = flags_over(m, fs.drop_last());
        match parse_answer_flag_spec(fs.last()) {
            Ok((id, value)) => prev.insert(id, value),
            Err(_) => prev,
        }
    }
}

/// Why the first malformed flag among `fs[from..]` is refused, if any is.
pub open spec fn first_flag_error(fs: Seq<Seq<char>>, from: int) -> Option<Seq<char>>
    decreases fs.len() - from,
{
    if from < 0 || from >= fs.len() {
        None
    } else {
        match parse_answer_flag_spec(fs[from]) {
            Err(e) => Some(e),
            Ok(_) => first_flag_error(fs, from + 1),
        }
    }
}

/// Merge `--answer` flags over answers read from a file; flags win, and a
/// malformed flag is refused.
pub fn merge_answer_flags(map: &mut AnswerMap, flags: &Vec<String>) -> (r: Result<(), String>)
    ensures
        r is Ok <==> forall|i: int| 0 <= i < flags@.len() ==> #[trigger] parse_answer_flag_spec(flags@[i]@) is Ok,
        match r {
            Ok(()) => final(map).view() == flags_over(old(map).view(), views(flags@)),
            Err(e) => first_flag_error(views(flags@), 0) == Some(e@),
        },
{
    let ghost fs = views(flags@);
    let ghost m0 = map.view();
    let mut i: usize = 0;
    assert(fs.take(0) =~= Seq::<Seq<char>>::empty());
    while i < flags.len()
        invariant
            0 <= i <= flags@.len(),
            fs == views(flags@),
            forall|k: int| 0 <= k < i ==> #[trigger] parse_answer_flag_spec(flags@[k]@) is Ok,
            map.view() == flags_over(m0, fs.take(i as int)),
            first_flag_error(fs, 0) == first_flag_error(fs, i as int),
        decreases flags@.len() - i,
    {
        assert(fs[i as int] == flags@[i as int]@);
        assert(fs.take(i + 1).drop_last() =~= fs.take(i as int));
        assert(fs.take(i + 1).last() == fs[i as int]);
        match parse_answer_flag(flags[i].as_str()) {
            Ok((id, value)) => map.insert(id, value),
            Err(e) => return Err(e),
        }
        i += 1;
    }
    assert(fs.take(i as int) =~= fs);
    Ok(())
}

/// Why an asker could not produce an answer.
#[derive(Debug)]
pub enum AskError {
    /// The supplied answer does not fit the question.
    Invalid(String),
    /// Nothing was supplied: the caller must prompt for it.
    NeedsPrompt,
}

/// Answers questions interactively, preferring any pre-supplied answer so a
/// caller is never prompted for something it already gave.
pub struct InteractiveAsker {
    pub answers: AnswerMap,
    pub plain: bool,
}

impl InteractiveAsker {
    pub fn new(answers: AnswerMap, plain: bool) -> (a: InteractiveAsker)
        ensures
            a.answers.view() == answers.view(),
            a.plain == plain,
    {
        InteractiveAsker { answers, plain }
    }

    /// The pre-supplied answer to `q`, coerced; `NeedsPrompt` when there is
    /// none (the caller then prompts and uses `answer_from_prompt`).
    pub fn ask(&mut self, q: &Question) -> (r: Result<Answer, AskError>)
        ensures
            !old(self).answers.view().contains_key(q.id@) ==> r matches Err(AskError::NeedsPrompt),
            old(self).answers.view().contains_key(q.id@) ==> match (r, coerce_spec(q, old(self).answers.view()[q.id@])) {
                (Ok(a), Ok((k, t, b))) => answer_matches(a, k, t, b),
                (Err(AskError::Invalid(e)), Err(m)) => e@ == m,
                _ => false,
            },
            final(self).answers.view() == old(self).answers.view(),
    {
        match self.answers.get(q.id.as_str()) {
            Some(raw) => match coerce(q, raw.as_str()) {
                Ok(a) => Ok(a),
                Err(e) => Err(AskError::Invalid(e)),
            },
            None => Err(AskError::NeedsPrompt),
        }
    }
}

/// `m` holds a usable answer to `q`.
pub open spec fn answerable(m: Map<Seq<char>, Seq<char>>, q: Question) -> bool {
    m.contains_key(q.id@) && coerce_spec(&q, m[q.id@]) is Ok
}

/// `a` is what the answer recorded in `m` for `q` coerces to.
pub open spec fn answered(m: Map<Seq<char>, Seq<char>>, q: Question, a: Answer) -> bool {
    &&& m.contains_key(q.id@)
    &&& coerce_spec(&q, m[q.id@]) matches Ok((k, t, b))
    &&& answer_matches(a, k, t, b)
}

impl InteractiveAsker {
    /// Answer every question in order from the pre-supplied answers; the
    /// first one that cannot be answered stops the batch.
    pub fn ask_all(&mut self, qs: &[Question]) -> (r: Result<Vec<Answer>, AskError>)
        ensures
            final(self).answers.view() == old(self).answers.view(),
            r matches Ok(v) ==> v@.len() == qs@.len() && forall|i: int|
                0 <= i < qs@.len() ==> answered(old(self).answers.view(), qs@[i], #[trigger] v@[i]),
            r is Err ==> exists|i: int| 0 <= i < qs@.len() && !answerable(old(self).answers.view(), #[trigger] qs@[i]),
            r matches Err(AskError::NeedsPrompt) ==> exists|i: int|
                0 <= i < qs@.len() && !old(self).answers.view().contains_key(#[trigger] qs@[i].id@),
            r matches Err(AskError::Invalid(_)) ==> exists|i: int|
                0 <= i < qs@.len() && old(self).answers.view().contains_key(#[trigger] qs@[i].id@)
                    && coerce_spec(&qs@[i], old(self).answers.view()[qs@[i].id@]) is Err,
    {
        let ghost m = self.answers.view();
        let mut out: Vec<Answer> = Vec::new();
        let mut i: usize = 0;
        while i < qs.len()
            invariant
                self.answers.view() == m,
                m == old(self).answers.view(),
                0 <= i <= qs@.len(),
                out@.len() == i,
                forall|k: int| 0 <= k < i ==> answered(m, qs@[k], #[trigger] out@[k]),
            decreases qs@.len() - i,
        {
            let a = self.ask(&qs[i]);
            match a {
                Ok(a) => out.push(a),
                Err(e) => {
                    assert(!answerable(m, qs@[i as int]));
                    return Err(e);
                },
            }
            i += 1;
        }
        Ok(out)
    }
}

/// The candidate labels of a question.
pub open spec fn candidate_labels(q: &Question) -> Seq<Seq<char>> {
    q.candidates@.map_values(|c: Candidate| c.label@)
}

/// The label appended to a choice that allows a free-form value.
pub open spec fn enter_another_value() -> Seq<char> {
    "enter another value"@
}

/// What a prompt's reply means for `q`: for a choice, the value of the
/// candidate whose label was picked (or the picked text itself); for
/// text, the reply; for a confirm-env, whether the trimmed reply is the
/// environment's name.
pub open spec fn prompt_answer_spec(q: &Question, reply: Seq<char>) -> (QuestionKind, Seq<char>, bool) {
    match q.kind {
        QuestionKind::Choice => {
            let labels = candidate_labels(q);
            if labels.contains(reply) {
                let k = choose|k: int| 0 <= k < labels.len() && labels[k] == reply && forall|j: int| 0 <= j < k ==> labels[j] != reply;
                (QuestionKind::Choice, q.candidates@[k].value@, false)
            } else {
                (QuestionKind::Choice, reply, false)
            }
        },
        QuestionKind::Text => (QuestionKind::Text, reply, false),
        QuestionKind::Confirm => (QuestionKind::Confirm, Seq::empty(), reply == "yes"@),
        QuestionKind::ConfirmEnv => (QuestionKind::ConfirmEnv, Seq::empty(), trim(reply) == confirm_env_name(q.id@)),
    }
}

/// Turn a prompt's reply into the answer to `q`. For a confirm question the
/// reply is `yes` or `no`, as the confirmation prompt reports it.
pub fn answer_from_prompt(q: &Question, reply: &str) -> (a: Answer)
    ensures
        ({
            let (k, t, b) = prompt_answer_spec(q, reply@);
            answer_matches(a, k, t, b)
        }),
{
    match q.kind {
        QuestionKind::Choice => {
            let ghost labels = candidate_labels(q);
            let mut i: usize = 0;
            while i < q.candidates.len()
                invariant
                    labels == candidate_labels(q),
                    q.kind == QuestionKind::Choice,
                    0 <= i <= q.candidates@.len(),
                    forall|j: int| 0 <= j < i ==> labels[j] != reply@,
                decreases q.candidates@.len() - i,
            {
                if str_eq(q.candidates[i].label.as_str(), reply) {
                    proof {
                        assert(labels[i as int] == reply@);
                        assert(labels.contains(reply@));
                        let k = choose|k: int| 0 <= k < labels.len() && labels[k] == reply@ && forall|j: int| 0 <= j < k ==> labels[j] != reply@;
                        if k < i {
                        } else if k > i {
                        }
                        assert(k == i);
                        assert(prompt_answer_spec(q, reply@) == (QuestionKind::Choice, q.candidates@[i as int].value@, false));
                    }
                    let v = q.candidates[i].value.clone();
                    assert(v@ == q.candidates@[i as int].value@);
                    return Answer::Choice(v);
                }
                i += 1;
            }
            proof {
                if labels.contains(reply@) {
                    let k = choose|k: int| 0 <= k < labels.len() && labels[k] == reply@;
                    assert(labels[k] != reply@);
                }
            }
            Answer::Choice(copy_str(reply))
        },
        QuestionKind::Text => Answer::Text(copy_str(reply)),
        QuestionKind::Confirm => Answer::Confirm(str_eq(reply, "yes")),
        QuestionKind::ConfirmEnv => {
            let env = confirm_env_of(&q.id);
            let t = string_of(&trim_vec(&chars_of(reply)));
            Answer::Confirm(str_eq(t.as_str(), env.as_str()))
        },
    }
}

// ---------------------------------------------------------------------------
// Scripted answers and the needs-input document
// ---------------------------------------------------------------------------

/// A question as plain values: id, kind, prompt, candidates (value, label),
/// whether other values are allowed, default.
pub type QuestionView = (Seq<char>, QuestionKind, Seq<char>, Seq<(Seq<char>, Seq<char>)>, bool, Option<Seq<char>>);

/// The plain values of a question.
pub open spec fn question_view(q: Question) -> QuestionView {
    (
        q.id@,
        q.kind,
        q.prompt@,
        q.candidates@.map_values(|c: Candidate| (c.value@, c.label@)),
        q.allow_other,
        match q.default {
            Some(d) => Some(d@),
            None => None,
        },
    )
}

/// The plain values of a list of questions.
pub open spec fn question_views(qs: Seq<Question>) -> Seq<QuestionView> {
    qs.map_values(|q: Question| question_view(q))
}

/// A candidate in the `needs-input` document.
pub open spec fn candidate_doc(c: (Seq<char>, Seq<char>)) -> Json {
    Json::Obj(seq![("value"@, Json::Str(c.0)), ("label"@, Json::Str(c.1))])
}

/// A question in the `needs-input` document: `candidates` is omitted when
/// empty, `default` when there is none, and `allow_other` is present only
/// when true.
pub open spec fn question_doc(q: QuestionView) -> Json {
    let base = seq![("id"@, Json::Str(q.0)), ("kind"@, Json::Str(q.1.name_spec())), ("prompt"@, Json::Str(q.2))];
    let c: Seq<(Seq<char>, Json)> = if q.3.len() > 0 {
        seq![("candidates"@, Json::Arr(q.3.map_values(|c: (Seq<char>, Seq<char>)| candidate_doc(c))))]
    } else {
        Seq::empty()
    };
    let a: Seq<(Seq<char>, Json)> = if q.4 {
        seq![("allow_other"@, Json::Bool(true))]
    } else {
        Seq::empty()
    };
    let d: Seq<(Seq<char>, Json)> = match q.5 {
        Some(x) => seq![("default"@, Json::Str(x))],
        None => Seq::empty(),
    };
    Json::Obj(base + c + a + d)
}

/// A copy of a question.
pub fn copy_question(q: &Question) -> (r: Question)
    ensures
        question_view(r) == question_view(*q),
{
    let mut cands: Vec<Candidate> = Vec::new();
    let mut i: usize = 0;
    while i < q.candidates.len()
        invariant
            i <= q.candidates@.len(),
            cands@.len() == i,
            forall|j: int| 0 <= j < i ==> (#[trigger] cands@[j]).value@ == q.candidates@[j].value@
                && cands@[j].label@ == q.candidates@[j].label@,
        decreases q.candidates@.len() - i,
    {
        let c = &q.candidates[i];
        cands.push(Candidate { value: copy_str(c.value.as_str()), label: copy_str(c.label.as_str()) });
        i = i + 1;
    }
    let default = match &q.default {
        Some(d) => Some(copy_str(d.as_str())),
        None => None,
    };
    let r = Question {
        id: copy_str(q.id.as_str()),
        kind: q.kind,
        prompt: copy_str(q.prompt.as_str()),
        candidates: cands,
        allow_other: q.allow_other,
        default,
    };
    assert(question_view(r).3 =~= question_view(*q).3);
    r
}

/// A string member.
fn str_entry(key: &str, value: &str) -> (e: (String, JsonValue))
    ensures
        e.0@ == key@,
        jv(e.1) == Json::Str(value@),
{
    (copy_str(key), JsonValue::Str(copy_str(value)))
}

impl Question {
    /// The question as it appears in the `needs-input` document.
    pub fn to_value(&self) -> (r: JsonValue)
        ensures
            jv(r) == question_doc(question_view(*self)),
    {
        let ghost qv = question_view(*self);
        let mut es: Vec<(String, JsonValue)> = Vec::new();
        es.push(str_entry("id", self.id.as_str()));
        es.push(str_entry("kind", self.kind.as_str()));
        es.push(str_entry("prompt", self.prompt.as_str()));
        let ghost base = members_of(es@);
        assert(base =~= seq![("id"@, Json::Str(qv.0)), ("kind"@, Json::Str(qv.1.name_spec())), ("prompt"@, Json::Str(qv.2))]);
        let ghost c: Seq<(Seq<char>, Json)> = if qv.3.len() > 0 {
            seq![("candidates"@, Json::Arr(qv.3.map_values(|c: (Seq<char>, Seq<char>)| candidate_doc(c))))]
        } else {
            Seq::empty()
        };
        if self.candidates.len() > 0 {
            let mut items: Vec<JsonValue> = Vec::new();
            let mut i: usize = 0;
            while i < self.candidates.len()
                invariant
                    i <= self.candidates@.len(),
                    qv == question_view(*self),
                    items@.len() == i,
                    forall|j: int| 0 <= j < i ==> jv(#[trigger] items@[j]) == candidate_doc(qv.3[j]),
                decreases self.candidates@.len() - i,
            {
                let cand = &self.candidates[i];
                let mut ce: Vec<(String, JsonValue)> = Vec::new();
                ce.push(str_entry("value", cand.value.as_str()));
                ce.push(str_entry("label", cand.label.as_str()));
                let cv = JsonValue::Object(ce);
                proof {
                    lemma_jv_unfold(cv);
                    assert(members_of(ce@) =~= seq![("value"@, Json::Str(qv.3[i as int].0)), ("label"@, Json::Str(qv.3[i as int].1))]);
                }
                items.push(cv);
                i = i + 1;
            }
            let arr = JsonValue::Array(items);
            proof {
                lemma_jv_unfold(arr);
                assert(items_of(items@) =~= qv.3.map_values(|c: (Seq<char>, Seq<char>)| candidate_doc(c)));
            }
            es.push((copy_str("candidates"), arr));
        }
        assert(members_of(es@) =~= base + c);
        let ghost bc = members_of(es@);
        if self.allow_other {
            es.push((copy_str("allow_other"), JsonValue::Bool(true)));
        }
        let ghost a: Seq<(Seq<char>, Json)> = if qv.4 {
            seq![("allow_other"@, Json::Bool(true))]
        } else {
            Seq::empty()
        };
        assert(members_of(es@) =~= bc + a);
        let ghost bca = members_of(es@);
        match &self.default {
            Some(d) => es.push(str_entry("default", d.as_str())),
            None => {},
        }
        let ghost d: Seq<(Seq<char>, Json)> = match qv.5 {
            Some(x) => seq![("default"@, Json::Str(x))],
            None => Seq::empty(),
        };
        assert(members_of(es@) =~= bca + d);
        let r = JsonValue::Object(es);
        proof {
            lemma_jv_unfold(r);
        }
        r
    }
}

/// The `needs-input` protocol document.
pub open spec fn needs_input_doc(command: Seq<char>, context: Json, qs: Seq<QuestionView>) -> Json {
    Json::Obj(
        seq![
            ("status"@, Json::Str("needs-input"@)),
            ("command"@, Json::Str(command)),
            ("context"@, context),
            ("questions"@, Json::Arr(qs.map_values(|q: QuestionView| question_doc(q)))),
        ],
    )
}

/// A structured "more input is needed" outcome: the command, its context,
/// and every question that still needs an answer.
#[derive(Debug)]
pub struct NeedsInput {
    pub command: String,
    pub context: JsonValue,
    pub questions: Vec<Question>,
}

/// The one-line message of a needs-input outcome.
pub open spec fn needs_input_message(qs: Seq<QuestionView>) -> Seq<char> {
    decimal(qs.len()) + " question(s) need an answer: "@ + join(qs.map_values(|q: QuestionView| q.0), ", "@)
}

impl NeedsInput {
    /// The `needs-input` protocol document printed to stdout.
    pub fn to_json(&self) -> (r: JsonValue)
        ensures
            jv(r) == needs_input_doc(self.command@, jv(self.context), question_views(self.questions@)),
    {
        let ghost qvs = question_views(self.questions@);
        let mut docs: Vec<JsonValue> = Vec::new();
        let mut i: usize = 0;
        while i < self.questions.len()
            invariant
                i <= self.questions@.len(),
                qvs == question_views(self.questions@),
                docs@.len() == i,
                forall|j: int| 0 <= j < i ==> jv(#[trigger] docs@[j]) == question_doc(qvs[j]),
            decreases self.questions@.len() - i,
        {
            docs.push(self.questions[i].to_value());
            i = i + 1;
        }
        let arr = JsonValue::Array(docs);
        proof {
            lemma_jv_unfold(arr);
            assert(items_of(docs@) =~= qvs.map_values(|q: QuestionView| question_doc(q)));
        }
        let mut es: Vec<(String, JsonValue)> = Vec::new();
        es.push(str_entry("status", "needs-input"));
        es.push(str_entry("command", self.command.as_str()));
        es.push((copy_str("context"), deep_copy(&self.context)));
        es.push((copy_str("questions"), arr));
        let r = JsonValue::Object(es);
        proof {
            lemma_jv_unfold(r);
            assert(members_of(es@) =~= seq![
                ("status"@, Json::Str("needs-input"@)),
                ("command"@, Json::Str(self.command@)),
                ("context"@, jv(self.context)),
                ("questions"@, Json::Arr(qvs.map_values(|q: QuestionView| question_doc(q)))),
            ]);
        }
        r
    }

    /// `<n> question(s) need an answer: <ids>`.
    pub fn message(&self) -> (s: String)
        ensures
            s@ == needs_input_message(question_views(self.questions@)),
    {
        let mut ids: Vec<String> = Vec::new();
        let mut i: usize = 0;
        while i < self.questions.len()
            invariant
                i <= self.questions@.len(),
                views(ids@) == question_views(self.questions@).take(i as int).map_values(|q: QuestionView| q.0),
            decreases self.questions@.len() - i,
        {
            let ghost before = ids@;
            ids.push(copy_str(self.questions[i].id.as_str()));
            assert(question_views(self.questions@)[i as int].0 == self.questions@[i as int].id@);
            assert(views(ids@) =~= views(before).push(self.questions@[i as int].id@));
            assert(views(ids@) =~= question_views(self.questions@).take(i + 1).map_values(|q: QuestionView| q.0));
            i = i + 1;
        }
        assert(question_views(self.questions@).take(self.questions@.len() as int) =~= question_views(self.questions@));
        let mut s = decimal_string(self.questions.len());
        push_str(&mut s, " question(s) need an answer: ");
        push_str(&mut s, join_strings(&ids, ", ").as_str());
        s
    }
}

/// Why a scripted asker produced no answer.
#[derive(Debug)]
pub enum ScriptError {
    /// A supplied answer does not fit its question.
    Invalid(String),
    /// Some questions have no supplied answer.
    NeedsInput(NeedsInput),
}

/// Answers questions from a fixed set of pre-supplied answers only;
/// whatever is missing is reported in one `needs-input` outcome.
pub struct ScriptedAsker {
    pub answers: AnswerMap,
    pub command: String,
    pub context: JsonValue,
}

/// A supplied answer to `q` exists but does not fit it.
pub open spec fn invalid_answer(m: Map<Seq<char>, Seq<char>>, q: Question) -> bool {
    m.contains_key(q.id@) && coerce_spec(&q, m[q.id@]) is Err
}

/// No answer to `q` was supplied.
pub open spec fn unanswered(m: Map<Seq<char>, Seq<char>>) -> spec_fn(Question) -> bool {
    |q: Question| !m.contains_key(q.id@)
}

impl ScriptedAsker {
    pub fn new(answers: AnswerMap, command: &str, context: JsonValue) -> (a: ScriptedAsker)
        ensures
            a.answers.view() == answers.view(),
            a.command@ == command@,
            jv(a.context) == jv(context),
    {
        ScriptedAsker { answers, command: copy_str(command), context }
    }

    /// A needs-input outcome for `questions`.
    pub fn needs_input(&self, questions: Vec<Question>) -> (ni: NeedsInput)
        ensures
            ni.command@ == self.command@,
            jv(ni.context) == jv(self.context),
            question_views(ni.questions@) == question_views(questions@),
    {
        NeedsInput { command: copy_str(self.command.as_str()), context: deep_copy(&self.context), questions }
    }

    /// The supplied answer to `q`, coerced; a needs-input outcome naming
    /// `q` when there is none.
    pub fn ask(&mut self, q: &Question) -> (r: Result<Answer, ScriptError>)
        ensures
            final(self).answers.view() == old(self).answers.view(),
            final(self).command@ == old(self).command@,
            jv(final(self).context) == jv(old(self).context),
            match r {
                Ok(a) => answered(old(self).answers.view(), *q, a),
                Err(ScriptError::Invalid(e)) => invalid_answer(old(self).answers.view(), *q)
                    && coerce_spec(q, old(self).answers.view()[q.id@]) == Err::<(QuestionKind, Seq<char>, bool), Seq<char>>(e@),
                Err(ScriptError::NeedsInput(ni)) => !old(self).answers.view().contains_key(q.id@)
                    && ni.command@ == old(self).command@ && jv(ni.context) == jv(old(self).context)
                    && question_views(ni.questions@) == seq![question_view(*q)],
            },
    {
        match self.answers.get(q.id.as_str()) {
            Some(raw) => match coerce(q, raw.as_str()) {
                Ok(a) => Ok(a),
                Err(e) => Err(ScriptError::Invalid(e)),
            },
            None => {
                let mut qs: Vec<Question> = Vec::new();
                qs.push(copy_question(q));
                assert(question_views(qs@) =~= seq![question_view(*q)]);
                Err(ScriptError::NeedsInput(self.needs_input(qs)))
            },
        }
    }

    /// Answer every question from the supplied answers. A supplied answer
    /// that does not fit stops the batch; otherwise every unanswered
    /// question is collected into one needs-input outcome.
    pub fn ask_all(&mut self, qs: &[Question]) -> (r: Result<Vec<Answer>, ScriptError>)
        ensures
            final(self).answers.view() == old(self).answers.view(),
            final(self).command@ == old(self).command@,
            jv(final(self).context) == jv(old(self).context),
            match r {
                Ok(v) => v@.len() == qs@.len() && forall|i: int|
                    0 <= i < qs@.len() ==> answered(old(self).answers.view(), qs@[i], #[trigger] v@[i]),
                Err(ScriptError::Invalid(e)) => exists|k: int|
                    0 <= k < qs@.len() && invalid_answer(old(self).answers.view(), #[trigger] qs@[k])
                        && (forall|j: int| 0 <= j < k ==> !invalid_answer(old(self).answers.view(), #[trigger] qs@[j]))
                        && coerce_spec(&qs@[k], old(self).answers.view()[qs@[k].id@])
                            == Err::<(QuestionKind, Seq<char>, bool), Seq<char>>(e@),
                Err(ScriptError::NeedsInput(ni)) => (forall|j: int|
                    0 <= j < qs@.len() ==> !invalid_answer(old(self).answers.view(), #[trigger] qs@[j]))
                    && ni.questions@.len() > 0
                    && question_views(ni.questions@) == question_views(qs@.filter(unanswered(old(self).answers.view())))
                    && ni.command@ == old(self).command@ && jv(ni.context) == jv(old(self).context),
            },
    {
        let ghost m = self.answers.view();
        let mut answers: Vec<Answer> = Vec::new();
        let mut missing: Vec<Question> = Vec::new();
        let mut i: usize = 0;
        while i < qs.len()
            invariant
                self.answers.view() == m,
                m == old(self).answers.view(),
                self.command@ == old(self).command@,
                jv(self.context) == jv(old(self).context),
                i <= qs@.len(),
                forall|j: int| 0 <= j < i ==> !invalid_answer(m, #[trigger] qs@[j]),
                question_views(missing@) == question_views(qs@.take(i as int).filter(unanswered(m))),
                answers@.len() <= i,
                missing@.len() == 0 ==> answers@.len() == i && forall|j: int|
                    0 <= j < i ==> answered(m, qs@[j], #[trigger] answers@[j]),
            decreases qs@.len() - i,
        {
            proof {
                assert(qs@.take(i + 1) =~= qs@.take(i as int).push(qs@[i as int]));
                qs@.take(i as int).lemma_filter_push(qs@[i as int], unanswered(m));
            }
            let ghost before = missing@;
            match self.answers.get(qs[i].id.as_str()) {
                Some(raw) => match coerce(&qs[i], raw.as_str()) {
                    Ok(a) => answers.push(a),
                    Err(e) => return Err(ScriptError::Invalid(e)),
                },
                None => {
                    missing.push(copy_question(&qs[i]));
                    assert(question_views(missing@) =~= question_views(before).push(question_view(qs@[i as int])));
                },
            }
            i = i + 1;
        }
        assert(qs@.take(qs@.len() as int) =~= qs@);
        if missing.len() > 0 {
            return Err(ScriptError::NeedsInput(self.needs_input(missing)));
        }
        Ok(answers)
    }
}

} // verus!
