//! Text forms of result fields, for display and for the JSON and CSV
//! exports.
use vstd::prelude::*;
use crate::text::{append_str, chars_of, join, join_strings, push_char, string_of, texts};
use crate::types::{LoraInfo, LoraSpec, lora_views};

verus! {

/// A LoRA entry as `name: weight`.
pub open spec fn lora_label(l: LoraSpec) -> Seq<char> {
    l.name + ": "@ + l.weight
}

/// The labels of a list of LoRA entries.
pub open spec fn lora_labels(ls: Seq<LoraSpec>) -> Seq<Seq<char>> {
    ls.map_values(|l: LoraSpec| lora_label(l))
}

/// The LoRAs of a record in one cell: `name: weight | name: weight`, empty
/// where there are none.
pub fn lora_summary(loras: &Vec<LoraInfo>) -> (s: String)
    ensures
        s@ == join(lora_labels(lora_views(loras@)), " | "@),
{
    let mut labels: Vec<String> = Vec::new();
    let mut i: usize = 0;
    while i < loras.len()
        invariant
            i <= loras@.len(),
            labels@.len() == i,
            forall|k: int| 0 <= k < i ==> #[trigger] labels@[k]@ == lora_label(loras@[k]@),
        decreases loras@.len() - i,
    {
        let mut label = loras[i].name.clone();
        append_str(&mut label, ": ");
        append_str(&mut label, loras[i].weight.as_str());
        labels.push(label);
        i = i + 1;
    }
    assert(texts(labels@) =~= lora_labels(lora_views(loras@)));
    join_strings(&labels, " | ")
}

/// How many characters of a prompt are shown unless the full prompt is
/// asked for.
pub const PROMPT_PREVIEW_CHARS: usize = 500;

/// The prompt as shown: whole where the full prompt is asked for or it has
/// at most `PROMPT_PREVIEW_CHARS` characters, else its first
/// `PROMPT_PREVIEW_CHARS` characters followed by `…`.
pub open spec fn shown_prompt(prompt: Seq<char>, full: bool) -> Seq<char> {
    if full || prompt.len() <= PROMPT_PREVIEW_CHARS {
        prompt
    } else {
        prompt.take(PROMPT_PREVIEW_CHARS as int).push('\u{2026}')
    }
}

/// The prompt as the result view shows it.
pub fn prompt_for_display(prompt: &str, full: bool) -> (s: String)
    ensures
        s@ == shown_prompt(prompt@, full),
{
    let cs = chars_of(prompt);
    if full || cs.len() <= PROMPT_PREVIEW_CHARS {
        assert(cs@.subrange(0, cs@.len() as int) == cs@);
        string_of(&cs, 0, cs.len())
    } else {
        let mut s = string_of(&cs, 0, PROMPT_PREVIEW_CHARS);
        assert(cs@.subrange(0, PROMPT_PREVIEW_CHARS as int) == prompt@.take(PROMPT_PREVIEW_CHARS as int));
        push_char(&mut s, '\u{2026}');
        s
    }
}

} // verus!
