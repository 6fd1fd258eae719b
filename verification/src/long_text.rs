//! Long text properties: the ones a change description shows line by line
//! rather than inline, and the indentation of such text.
use vstd::prelude::*;

use crate::docs::{lines, lines_spec};
use crate::resources::ResourceKind;
use crate::text::{copy_str, join, push_str, str_eq, views};

verus! {

/// The properties worth a line-level diff when their values are long: an
/// agent's instructions, a synonym map's rules, a knowledge base's retrieval
/// and answer instructions, and any description.
pub open spec fn long_text_property(path: Seq<char>, kind: ResourceKind) -> bool {
    ||| (path == "instructions"@ && kind == ResourceKind::Agent)
    ||| (path == "synonyms"@ && kind == ResourceKind::SynonymMap)
    ||| (path == "retrievalInstructions"@ && kind == ResourceKind::KnowledgeBase)
    ||| (path == "answerInstructions"@ && kind == ResourceKind::KnowledgeBase)
    ||| path == "description"@
}

/// Whether `path` of a `kind` resource is a long text property.
pub fn is_long_text_property(path: &str, kind: ResourceKind) -> (b: bool)
    ensures
        b == long_text_property(path@, kind),
{
    (str_eq(path, "instructions") && kind == ResourceKind::Agent) || (str_eq(path, "synonyms") && kind
        == ResourceKind::SynonymMap) || (str_eq(path, "retrievalInstructions") && kind
        == ResourceKind::KnowledgeBase) || (str_eq(path, "answerInstructions") && kind
        == ResourceKind::KnowledgeBase) || str_eq(path, "description")
}

/// `text` with `prefix` before each of its lines, the lines joined by `\n`.
pub open spec fn indented_text(text: Seq<char>, prefix: Seq<char>) -> Seq<char> {
    join(lines_spec(text).map_values(|l: Seq<char>| prefix + l), "\n"@)
}

/// Indent each line of a multi-line string.
pub fn indent_lines(text: &str, prefix: &str) -> (r: String)
    ensures
        r@ == indented_text(text@, prefix@),
{
    let ls = lines(text);
    let mut out: Vec<String> = Vec::new();
    let mut i: usize = 0;
    while i < ls.len()
        invariant
            i <= ls@.len(),
            out@.len() == i,
            forall|k: int| 0 <= k < i ==> (#[trigger] out@[k])@ == prefix@ + ls@[k]@,
        decreases ls@.len() - i,
    {
        let mut l = copy_str(prefix);
        push_str(&mut l, ls[i].as_str());
        out.push(l);
        i += 1;
    }
    proof {
        assert forall|k: int| 0 <= k < ls@.len() implies lines_spec(text@)[k] == (#[trigger] ls@[k])@ by {
            assert(views(ls@)[k] == ls@[k]@);
        }
        assert(views(out@) =~= lines_spec(text@).map_values(|l: Seq<char>| prefix@ + l));
    }
    crate::text::join_strings(&out, "\n")
}

} // verus!
