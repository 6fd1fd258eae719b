//! Dependency bindings: named references from an environment to the
//! supporting resources outside rigg's own kinds (storage accounts,
//! function apps, key vaults, ...), and the parsing and naming rules for
//! them.
use vstd::prelude::*;

use crate::text::{
    before, chars_of, copy_str, find_char, find_exec, has_prefix, is_alnum, is_digit, is_lower,
    lemma_find_spec, lower, lower_exec, lower_seq, lower_vec, push_char, push_str, split_once,
    str_eq, string_of, string_of_range, trim, trim_end_char, trim_end_char_vec,
    trim_start_char, trim_start_char_vec, trim_vec,
};

verus! {

/// The type of a dependency binding.
#[derive(Clone, Copy, Debug, PartialEq, Eq, Structural)]
pub enum BindingType {
    Storage,
    Identity,
    KeyVault,
    FunctionApp,
    Api,
    AiServices,
}

/// Every binding type, in the order they are listed to users.
pub open spec fn all_binding_types() -> Seq<BindingType> {
    seq![
        BindingType::Storage,
        BindingType::Identity,
        BindingType::KeyVault,
        BindingType::FunctionApp,
        BindingType::Api,
        BindingType::AiServices,
    ]
}

impl BindingType {
    /// The type's name in `rigg.yaml` and on the command line.
    pub open spec fn name_spec(self) -> Seq<char> {
        match self {
            BindingType::Storage => "storage"@,
            BindingType::Identity => "identity"@,
            BindingType::KeyVault => "key-vault"@,
            BindingType::FunctionApp => "function-app"@,
            BindingType::Api => "api"@,
            BindingType::AiServices => "ai-services"@,
        }
    }

    /// The type's name, e.g. `key-vault`.
    pub fn as_str(&self) -> (s: &'static str)
        ensures
            s@ == self.name_spec(),
    {
        match self {
            BindingType::Storage => "storage",
            BindingType::Identity => "identity",
            BindingType::KeyVault => "key-vault",
            BindingType::FunctionApp => "function-app",
            BindingType::Api => "api",
            BindingType::AiServices => "ai-services",
        }
    }

    /// Parse a type name, refusing anything but the known names.
    pub fn parse(s: &str) -> (r: Result<BindingType, String>)
        ensures
            r matches Ok(t) ==> t.name_spec() == s@,
            r is Err ==> forall|t: BindingType| #[trigger] t.name_spec() != s@,
            r matches Err(e) ==> e@ == unknown_type_msg(s@),
    {
        let all: Vec<BindingType> = vec![
            BindingType::Storage,
            BindingType::Identity,
            BindingType::KeyVault,
            BindingType::FunctionApp,
            BindingType::Api,
            BindingType::AiServices,
        ];
        assert(all@ =~= all_binding_types());
        let mut i: usize = 0;
        while i < all.len()
            invariant
                all@ == all_binding_types(),
                0 <= i <= all@.len(),
                forall|j: int| 0 <= j < i ==> all_binding_types()[j].name_spec() != s@,
            decreases all@.len() - i,
        {
            if str_eq(all[i].as_str(), s) {
                return Ok(all[i]);
            }
            i += 1;
        }
        proof {
            assert forall|t: BindingType| #[trigger] t.name_spec() != s@ by {
                match t {
                    BindingType::Storage => assert(all_binding_types()[0] == t),
                    BindingType::Identity => assert(all_binding_types()[1] == t),
                    BindingType::KeyVault => assert(all_binding_types()[2] == t),
                    BindingType::FunctionApp => assert(all_binding_types()[3] == t),
                    BindingType::Api => assert(all_binding_types()[4] == t),
                    BindingType::AiServices => assert(all_binding_types()[5] == t),
                }
            }
        }
        let mut e = copy_str("unknown binding type '");
        push_str(&mut e, s);
        push_str(&mut e, "' (expected one of: storage, identity, key-vault, function-app, api, ai-services)");
        Err(e)
    }
}

/// The refusal of an unknown binding type name.
pub open spec fn unknown_type_msg(s: Seq<char>) -> Seq<char> {
    "unknown binding type '"@ + s
        + "' (expected one of: storage, identity, key-vault, function-app, api, ai-services)"@
}

/// One binding: its type and the value recorded for it (a physical name, an
/// ARM id, or for `api` an origin URL).
#[derive(Clone, Debug, PartialEq, Eq)]
pub struct Binding {
    pub kind: BindingType,
    pub value: String,
}

impl Binding {
    /// A copy of this binding.
    pub fn copy(&self) -> (r: Binding)
        ensures
            r == *self,
    {
        Binding { kind: self.kind, value: self.value.clone() }
    }
}

/// A binding with its name.
#[derive(Clone, Debug, PartialEq, Eq)]
pub struct NamedBinding {
    pub name: String,
    pub binding: Binding,
}

impl NamedBinding {
    /// A copy of this named binding.
    pub fn copy(&self) -> (r: NamedBinding)
        ensures
            r == *self,
    {
        NamedBinding { name: self.name.clone(), binding: self.binding.copy() }
    }
}

/// Names no binding may take: they name an environment's own targets.
pub open spec fn reserved_binding_name(name: Seq<char>) -> bool {
    name == "search"@ || name == "foundry"@
}

/// A character allowed in a binding name.
pub open spec fn binding_name_char(c: char) -> bool {
    is_lower(c) || is_digit(c) || c == '-'
}

/// A binding name: lower-kebab (`[a-z0-9-]`, not starting or ending with
/// `-`), and not a reserved name.
pub open spec fn valid_binding_name_spec(name: Seq<char>) -> bool {
    &&& name.len() > 0
    &&& forall|i: int| 0 <= i < name.len() ==> binding_name_char(#[trigger] name[i])
    &&& name[0] != '-'
    &&& name.last() != '-'
    &&& !reserved_binding_name(name)
}

/// Why `name` is not a valid binding name (first failing rule).
pub open spec fn binding_name_problem(name: Seq<char>) -> Seq<char> {
    if name.len() == 0 {
        "a binding name must not be empty"@
    } else if exists|i: int| 0 <= i < name.len() && !binding_name_char(#[trigger] name[i]) {
        "binding name '"@ + name + "' may only contain lowercase letters, digits and '-'"@
    } else if name[0] == '-' || name.last() == '-' {
        "binding name '"@ + name + "' must not start or end with '-'"@
    } else {
        "binding name '"@ + name + "' is reserved for the environment's own target"@
    }
}

/// Check a binding name, explaining a refusal.
pub fn validate_binding_name(name: &str) -> (r: Result<(), String>)
    ensures
        r is Ok <==> valid_binding_name_spec(name@),
        r matches Err(e) ==> e@ == binding_name_problem(name@),
{
    let v = chars_of(name);
    if v.len() == 0 {
        return Err(copy_str("a binding name must not be empty"));
    }
    let mut i: usize = 0;
    while i < v.len()
        invariant
            v@ == name@,
            0 <= i <= v@.len(),
            forall|j: int| 0 <= j < i ==> binding_name_char(#[trigger] v@[j]),
        decreases v@.len() - i,
    {
        let c = v[i];
        if !(('a' <= c && c <= 'z') || ('0' <= c && c <= '9') || c == '-') {
            let mut e = copy_str("binding name '");
            push_str(&mut e, name);
            push_str(&mut e, "' may only contain lowercase letters, digits and '-'");
            return Err(e);
        }
        i += 1;
    }
    if v[0] == '-' || v[v.len() - 1] == '-' {
        let mut e = copy_str("binding name '");
        push_str(&mut e, name);
        push_str(&mut e, "' must not start or end with '-'");
        return Err(e);
    }
    if str_eq(name, "search") || str_eq(name, "foundry") {
        let mut e = copy_str("binding name '");
        push_str(&mut e, name);
        push_str(&mut e, "' is reserved for the environment's own target");
        return Err(e);
    }
    Ok(())
}

// ---------------------------------------------------------------------------
// Parsing `<type>:<value>` and `<name>=<type>:<value>`
// ---------------------------------------------------------------------------

/// What `parse_binding` gives for `spec`: the type and value, or the refusal.
pub open spec fn parse_binding_spec(spec: Seq<char>) -> Result<(BindingType, Seq<char>), Seq<char>> {
    match split_once(spec, ":"@) {
        None => Err("invalid binding '"@ + spec + "': expected <type>:<value>, e.g. storage:mklabstorageacc"@),
        Some((k, v)) => if exists|t: BindingType| t.name_spec() == trim(k) {
            if trim(v).len() == 0 {
                Err("invalid binding '"@ + spec + "': the value is empty"@)
            } else {
                Ok((choose|t: BindingType| t.name_spec() == trim(k), trim(v)))
            }
        } else {
            Err(unknown_type_msg(trim(k)))
        },
    }
}

proof fn lemma_binding_type_name_injective(a: BindingType, b: BindingType)
    ensures
        a.name_spec() == b.name_spec() ==> a == b,
{
    reveal_strlit("storage");
    reveal_strlit("identity");
    reveal_strlit("key-vault");
    reveal_strlit("function-app");
    reveal_strlit("api");
    reveal_strlit("ai-services");
    if a.name_spec() == b.name_spec() && a != b {
        let x = a.name_spec();
        let y = b.name_spec();
        assert(x.len() == y.len());
        assert(x[0] == y[0]);
        assert(x[1] == y[1]);
    }
}

/// Parse a `<type>:<value>` binding argument; the type and value are trimmed
/// and the value must not be empty.
pub fn parse_binding(spec: &str) -> (r: Result<Binding, String>)
    ensures
        match (r, parse_binding_spec(spec@)) {
            (Ok(b), Ok((t, v))) => b.kind == t && b.value@ == v,
            (Err(e), Err(m)) => e@ == m,
            _ => false,
        },
{
    let s = chars_of(spec);
    let len = s.len();
    proof {
        reveal_strlit(":");
        assert(":"@ == seq![':']);
        lemma_find_spec(s@, seq![':'], 0);
    }
    match find_char(&s, ':') {
        None => {
            let mut e = copy_str("invalid binding '");
            push_str(&mut e, spec);
            push_str(&mut e, "': expected <type>:<value>, e.g. storage:mklabstorageacc");
            Err(e)
        },
        Some(i) => {
            let k = slice_of_vec(&s, 0, i);
            let v = slice_of_vec(&s, i + 1, len);
            let kt = string_of(&trim_vec(&k));
            let vt = trim_vec(&v);
            match BindingType::parse(kt.as_str()) {
                Err(e) => Err(e),
                Ok(t) => {
                    if vt.len() == 0 {
                        let mut e = copy_str("invalid binding '");
                        push_str(&mut e, spec);
                        push_str(&mut e, "': the value is empty");
                        Err(e)
                    } else {
                        proof {
                            let c = choose|c: BindingType| c.name_spec() == trim(k@);
                            lemma_binding_type_name_injective(c, t);
                        }
                        Ok(Binding { kind: t, value: string_of(&vt) })
                    }
                },
            }
        },
    }
}

/// `v[from..to]`.
fn slice_of_vec(v: &Vec<char>, from: usize, to: usize) -> (r: Vec<char>)
    requires
        from <= to <= v@.len(),
    ensures
        r@ == v@.subrange(from as int, to as int),
{
    crate::text::slice_of(v, from, to)
}

/// What `parse_bind_flag` gives for `flag`: the name, type and value, or
/// the refusal (an invalid name is refused with the name rule's own
/// explanation).
pub open spec fn parse_bind_flag_spec(flag: Seq<char>) -> Result<(Seq<char>, BindingType, Seq<char>), Seq<char>> {
    match split_once(flag, "="@) {
        None => Err("invalid --bind '"@ + flag + "': expected <name>=<type>:<value>"@),
        Some((name, spec)) => if !valid_binding_name_spec(name) {
            Err(binding_name_problem(name))
        } else {
            match parse_binding_spec(spec) {
                Ok((t, v)) => Ok((name, t, v)),
                Err(m) => Err(m),
            }
        },
    }
}

/// Parse a `--bind <name>=<type>:<value>` flag.
pub fn parse_bind_flag(flag: &str) -> (r: Result<(String, Binding), String>)
    ensures
        match (r, parse_bind_flag_spec(flag@)) {
            (Ok((n, b)), Ok((n2, t, v))) => n@ == n2 && b.kind == t && b.value@ == v,
            (Err(e), Err(m)) => e@ == m,
            _ => false,
        },
{
    let s = chars_of(flag);
    let len = s.len();
    proof {
        reveal_strlit("=");
        assert("="@ == seq!['=']);
        lemma_find_spec(s@, seq!['='], 0);
    }
    match find_char(&s, '=') {
        None => {
            let mut e = copy_str("invalid --bind '");
            push_str(&mut e, flag);
            push_str(&mut e, "': expected <name>=<type>:<value>");
            Err(e)
        },
        Some(i) => {
            let name = string_of_range(&s, 0, i);
            let spec = string_of_range(&s, i + 1, len);
            match validate_binding_name(name.as_str()) {
                Err(e) => Err(e),
                Ok(()) => match parse_binding(spec.as_str()) {
                    Ok(b) => Ok((name, b)),
                    Err(e) => Err(e),
                },
            }
        },
    }
}

// ---------------------------------------------------------------------------
// Names and values proposed by `learn`
// ---------------------------------------------------------------------------

/// Lower-kebab before trimming: every ASCII alphanumeric is kept (lowercased)
/// and every run of other characters becomes one `-`.
pub open spec fn kebab_acc(s: Seq<char>) -> Seq<char>
    decreases s.len(),
{
    if s.len() == 0 {
        Seq::empty()
    } else {
        let out = kebab_acc(s.drop_last());
        let c = s.last();
        if is_alnum(c) {
            out.push(lower(c))
        } else if out.len() > 0 && out.last() == '-' {
            out
        } else {
            out.push('-')
        }
    }
}

/// Lower-kebab a physical name or host: everything outside `[a-z0-9]`
/// becomes `-`, repeats collapse, leading/trailing `-` are trimmed.
pub open spec fn kebab_spec(s: Seq<char>) -> Seq<char> {
    trim_start_char(trim_end_char(kebab_acc(s), '-'), '-')
}

/// Lower-kebab `raw` (see `kebab_spec`).
pub fn kebab(raw: &str) -> (r: String)
    ensures
        r@ == kebab_spec(raw@),
{
    let s = chars_of(raw);
    let mut out: Vec<char> = Vec::new();
    let mut i: usize = 0;
    while i < s.len()
        invariant
            s@ == raw@,
            0 <= i <= s@.len(),
            out@ == kebab_acc(s@.subrange(0, i as int)),
        decreases s@.len() - i,
    {
        let c = s[i];
        assert(s@.subrange(0, i + 1).drop_last() =~= s@.subrange(0, i as int));
        if ('0' <= c && c <= '9') || ('a' <= c && c <= 'z') || ('A' <= c && c <= 'Z') {
            out.push(lower_exec(c));
        } else if !(out.len() > 0 && out[out.len() - 1] == '-') {
            out.push('-');
        }
        i += 1;
    }
    assert(s@.subrange(0, s@.len() as int) =~= s@);
    let t = trim_end_char_vec(&out, '-');
    let u = trim_start_char_vec(&t, '-');
    string_of(&u)
}

/// A clean kebab string: `[a-z0-9-]` only and no `--`.
pub open spec fn clean_kebab(t: Seq<char>) -> bool {
    &&& forall|i: int| 0 <= i < t.len() ==> binding_name_char(#[trigger] t[i])
    &&& forall|i: int| 0 <= i < t.len() - 1 ==> !(#[trigger] t[i] == '-' && t[i + 1] == '-')
}

proof fn lemma_kebab_acc_clean(s: Seq<char>)
    ensures
        clean_kebab(kebab_acc(s)),
    decreases s.len(),
{
    if s.len() > 0 {
        lemma_kebab_acc_clean(s.drop_last());
        let out = kebab_acc(s.drop_last());
        let c = s.last();
        if is_alnum(c) {
            let r = out.push(lower(c));
            assert forall|i: int| 0 <= i < r.len() - 1 implies !(#[trigger] r[i] == '-' && r[i + 1] == '-') by {
                if i == r.len() - 2 {
                    assert(r[i + 1] == lower(c));
                } else {
                    assert(r[i] == out[i] && r[i + 1] == out[i + 1]);
                }
            }
            assert forall|i: int| 0 <= i < r.len() implies binding_name_char(#[trigger] r[i]) by {
                if i < out.len() {
                    assert(r[i] == out[i]);
                }
            }
        } else if out.len() > 0 && out.last() == '-' {
        } else {
            let r = out.push('-');
            assert forall|i: int| 0 <= i < r.len() - 1 implies !(#[trigger] r[i] == '-' && r[i + 1] == '-') by {
                if i == r.len() - 2 {
                    assert(r[i] == out.last());
                } else {
                    assert(r[i] == out[i] && r[i + 1] == out[i + 1]);
                }
            }
            assert forall|i: int| 0 <= i < r.len() implies binding_name_char(#[trigger] r[i]) by {
                if i < out.len() {
                    assert(r[i] == out[i]);
                }
            }
        }
    }
}

proof fn lemma_trim_end_char_sub(s: Seq<char>, c: char)
    ensures
        trim_end_char(s, c) == s.subrange(0, trim_end_char(s, c).len() as int),
        trim_end_char(s, c).len() <= s.len(),
        trim_end_char(s, c).len() > 0 ==> trim_end_char(s, c).last() != c,
    decreases s.len(),
{
    if s.len() > 0 && s.last() == c {
        lemma_trim_end_char_sub(s.drop_last(), c);
        let t = trim_end_char(s.drop_last(), c);
        assert(s.drop_last().subrange(0, t.len() as int) =~= s.subrange(0, t.len() as int));
    } else {
        assert(s.subrange(0, s.len() as int) =~= s);
    }
}

proof fn lemma_trim_start_char_sub(s: Seq<char>, c: char)
    ensures
        trim_start_char(s, c) == s.subrange(s.len() - trim_start_char(s, c).len(), s.len() as int),
        trim_start_char(s, c).len() <= s.len(),
        trim_start_char(s, c).len() > 0 ==> trim_start_char(s, c)[0] != c,
    decreases s.len(),
{
    if s.len() > 0 && s[0] == c {
        lemma_trim_start_char_sub(s.drop_first(), c);
        let t = trim_start_char(s.drop_first(), c);
        assert(s.drop_first().subrange(s.len() - 1 - t.len(), s.len() - 1) =~= s.subrange(
            s.len() - t.len(),
            s.len() as int,
        ));
    } else {
        assert(s.subrange(0, s.len() as int) =~= s);
    }
}

proof fn lemma_clean_sub(t: Seq<char>, a: int, b: int)
    requires
        clean_kebab(t),
        0 <= a <= b <= t.len(),
    ensures
        clean_kebab(t.subrange(a, b)),
{
    let u = t.subrange(a, b);
    assert forall|i: int| 0 <= i < u.len() implies binding_name_char(#[trigger] u[i]) by {
        assert(u[i] == t[a + i]);
    }
    assert forall|i: int| 0 <= i < u.len() - 1 implies !(#[trigger] u[i] == '-' && u[i + 1] == '-') by {
        assert(u[i] == t[a + i] && u[i + 1] == t[a + i + 1]);
    }
}

proof fn lemma_trim_start_keeps_end(s: Seq<char>, c: char)
    requires
        s.len() > 0,
        s.last() != c,
    ensures
        trim_start_char(s, c).len() > 0,
        trim_start_char(s, c).last() == s.last(),
    decreases s.len(),
{
    if s[0] == c {
        lemma_trim_start_keeps_end(s.drop_first(), c);
    }
}

/// Law: what `kebab` produces is lower-kebab — only `[a-z0-9-]`, no `--`,
/// and no leading or trailing `-`.
pub proof fn law_kebab_shape(s: Seq<char>)
    ensures
        clean_kebab(kebab_spec(s)),
        kebab_spec(s).len() > 0 ==> kebab_spec(s)[0] != '-' && kebab_spec(s).last() != '-',
{
    let a = kebab_acc(s);
    lemma_kebab_acc_clean(s);
    let b = trim_end_char(a, '-');
    lemma_trim_end_char_sub(a, '-');
    lemma_clean_sub(a, 0, b.len() as int);
    let c = trim_start_char(b, '-');
    lemma_trim_start_char_sub(b, '-');
    lemma_clean_sub(b, b.len() - c.len(), b.len() as int);
    if c.len() > 0 {
        lemma_trim_start_keeps_end(b, '-');
    }
}

proof fn lemma_kebab_acc_of_clean(t: Seq<char>)
    requires
        clean_kebab(t),
        t.len() > 0 ==> t[0] != '-',
    ensures
        kebab_acc(t) == t,
    decreases t.len(),
{
    if t.len() > 0 {
        let p = t.drop_last();
        lemma_clean_sub(t, 0, t.len() - 1);
        assert(p =~= t.subrange(0, t.len() - 1));
        lemma_kebab_acc_of_clean(p);
        let c = t.last();
        assert(binding_name_char(t[t.len() - 1]));
        if c == '-' {
            assert(t.len() > 1);
            assert(t[t.len() - 2] != '-');
            assert(p.last() == t[t.len() - 2]);
        }
        assert(kebab_acc(t) =~= t);
    }
}

/// Law: `kebab` is idempotent — a name it produced comes back unchanged.
pub proof fn law_kebab_idempotent(s: Seq<char>)
    ensures
        kebab_spec(kebab_spec(s)) == kebab_spec(s),
{
    let k = kebab_spec(s);
    law_kebab_shape(s);
    lemma_kebab_acc_of_clean(k);
    if k.len() > 0 {
        assert(trim_end_char(k, '-') == k);
        assert(trim_start_char(k, '-') == k);
    } else {
        assert(trim_end_char(k, '-') == k);
        assert(trim_start_char(k, '-') == k);
    }
}

/// The origin (`scheme://host[:port]`) of a URL, or the text itself when it
/// has no `://`.
pub open spec fn origin_spec(url: Seq<char>) -> Seq<char> {
    match split_once(url, "://"@) {
        Some((scheme, rest)) => scheme + "://"@ + before(rest, "/"@),
        None => url,
    }
}

/// The origin of a URL, for `api` proposals.
pub fn origin(url: &str) -> (r: String)
    ensures
        r@ == origin_spec(url@),
{
    let s = chars_of(url);
    let sep = chars_of("://");
    match find_exec(&s, &sep) {
        None => copy_str(url),
        Some(i) => {
            proof {
                lemma_find_spec(s@, sep@, 0);
            }
            let len = s.len();
            let rest = crate::text::slice_of(&s, i + sep.len(), len);
            let mut r = string_of_range(&s, 0, i);
            push_str(&mut r, "://");
            let slash = chars_of("/");
            match find_exec(&rest, &slash) {
                Some(j) => {
                    proof {
                        lemma_find_spec(rest@, slash@, 0);
                    }
                    let host = string_of_range(&rest, 0, j);
                    push_str(&mut r, host.as_str());
                },
                None => {
                    let host = string_of(&rest);
                    push_str(&mut r, host.as_str());
                },
            }
            r
        },
    }
}

/// The ARM id inside a storage connection string's `ResourceId=` (located
/// case-insensitively anywhere), without its trailing `/` and without any
/// `;`-separated tail; `None` when absent or empty.
pub open spec fn storage_resource_id_spec(conn: Seq<char>) -> Option<Seq<char>> {
    match crate::text::find(lower_seq(conn), "resourceid="@) {
        None => None,
        Some(at) => {
            let rest = conn.subrange(at + 11, conn.len() as int);
            let id = trim_end_char(before(rest, ";"@), '/');
            if id.len() == 0 {
                None
            } else {
                Some(id)
            }
        },
    }
}

/// Locate the `ResourceId=` ARM id in a storage connection string.
pub fn storage_resource_id(conn: &str) -> (r: Option<String>)
    ensures
        match (r, storage_resource_id_spec(conn@)) {
            (Some(s), Some(t)) => s@ == t,
            (None, None) => true,
            _ => false,
        },
{
    let s = chars_of(conn);
    let lower = lower_vec(&s);
    let key = chars_of("resourceid=");
    proof {
        reveal_strlit("resourceid=");
    }
    match find_exec(&lower, &key) {
        None => None,
        Some(at) => {
            proof {
                lemma_find_spec(lower@, key@, 0);
            }
            let len = s.len();
            let rest = crate::text::slice_of(&s, at + 11, len);
            let semi = chars_of(";");
            let head = match find_exec(&rest, &semi) {
                Some(j) => {
                    proof {
                        lemma_find_spec(rest@, semi@, 0);
                    }
                    crate::text::slice_of(&rest, 0, j)
                },
                None => rest,
            };
            let id = trim_end_char_vec(&head, '/');
            if id.len() == 0 {
                None
            } else {
                Some(string_of(&id))
            }
        },
    }
}

/// The header comment `rigg init` puts at the top of `rigg.yaml`.
pub open spec fn workspace_yaml_header_spec(root: Option<Seq<char>>) -> Seq<char> {
    let where_ = match root {
        Some(sub) => sub + "/projects/<name>/"@,
        None => "projects/<name>/"@,
    };
    "# Rigg workspace configuration.\n# Resource definitions live in "@ + where_
        + " — see `rigg new project`.\n"@
}

/// The header comment of `rigg.yaml`, for a workspace whose files live
/// under `root` when it has one.
pub fn workspace_yaml_header(root: Option<&str>) -> (h: String)
    ensures
        h@ == workspace_yaml_header_spec(match root {
            Some(r) => Some(r@),
            None => None,
        }),
{
    let mut h = copy_str("# Rigg workspace configuration.\n# Resource definitions live in ");
    match root {
        Some(sub) => {
            push_str(&mut h, sub);
            push_str(&mut h, "/projects/<name>/");
        },
        None => push_str(&mut h, "projects/<name>/"),
    }
    push_str(&mut h, " — see `rigg new project`.\n");
    h
}

} // verus!
