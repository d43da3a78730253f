//! Prompts and structured fields of a ComfyUI workflow (the JSON of the
//! `prompt` PNG chunk): an object of nodes, each with a `class_type` and
//! `inputs`.
use vstd::prelude::*;
use crate::json::{
    JsonValue, bool_of, entries_of, get, get_member, member, member_of, opt_deref, str_eq, str_of,
    text_of,
};
use crate::types::{
    DetailsSpec, LoraInfo, LoraSpec, PromptDetails, empty_details, has_lora_named, lora_views,
};
use crate::unicode::{lowercase_text, to_lowercase};
use crate::text::{
    append_str, string_of, chars_of, contains, contains_str, contains_string, join, join_strings, non_empty_text,
    opt_view, texts, trim, trimmed_non_empty,
};

verus! {

/// The `class_type` of a node.
pub open spec fn class_of(node: JsonValue) -> Option<Seq<char>> {
    str_of(get(Some(node), "class_type"@))
}

/// The `class_type` of a node, empty where it has none.
pub open spec fn class_or_empty(node: JsonValue) -> Seq<char> {
    match class_of(node) {
        Some(c) => c,
        None => Seq::empty(),
    }
}

/// The members of a node's `inputs` object.
pub open spec fn inputs_of(node: JsonValue) -> Option<Seq<(String, JsonValue)>> {
    entries_of(get(Some(node), "inputs"@))
}

/// A node class that encodes prompt text.
pub open spec fn is_text_encode_class(ct: Seq<char>) -> bool {
    ||| ct == "CLIPTextEncode"@
    ||| ct == "CLIPTextEncodeSDXL"@
    ||| ct == "CLIPTextEncodeFlux"@
    ||| ct == "TextEncodeQwenImageEdit"@
    ||| ct == "TextEncodeQwenImageEditPlus"@
    ||| contains(ct, "Prompt"@)
    ||| contains(ct, "TextEncode"@)
}

/// `acc` with the trimmed text of a string value appended, unless it is
/// empty or already there.
pub open spec fn add_text(acc: Seq<Seq<char>>, v: Option<JsonValue>) -> Seq<Seq<char>> {
    match str_of(v) {
        Some(t) => if trim(t).len() > 0 && !acc.contains(trim(t)) {
            acc.push(trim(t))
        } else {
            acc
        },
        None => acc,
    }
}

/// `acc` with the texts of the prompt fields `text_g`, `text_l`, `text` and
/// `prompt` of a node's inputs added in that order.
pub open spec fn add_prompt_fields(acc: Seq<Seq<char>>, inputs: Seq<(String, JsonValue)>) -> Seq<
    Seq<char>,
> {
    add_text(
        add_text(
            add_text(add_text(acc, member(inputs, "text_g"@)), member(inputs, "text_l"@)),
            member(inputs, "text"@),
        ),
        member(inputs, "prompt"@),
    )
}

/// `acc` with the prompts of one node added, where it is a text encoder.
pub open spec fn node_prompts(acc: Seq<Seq<char>>, node: JsonValue) -> Seq<Seq<char>> {
    match class_of(node) {
        Some(ct) => if is_text_encode_class(ct) {
            match inputs_of(node) {
                Some(inp) => add_prompt_fields(acc, inp),
                None => acc,
            }
        } else {
            acc
        },
        None => acc,
    }
}

/// The prompts of the first `n` nodes.
pub open spec fn prompts_upto(nodes: Seq<(String, JsonValue)>, n: int) -> Seq<Seq<char>>
    decreases n,
{
    if n <= 0 {
        Seq::empty()
    } else {
        node_prompts(prompts_upto(nodes, n - 1), nodes[n - 1].1)
    }
}

/// The distinct prompt texts of a workflow's text-encoder nodes, in node
/// order.
pub open spec fn workflow_prompts(json: JsonValue) -> Seq<Seq<char>> {
    match json {
        JsonValue::Object(e) => prompts_upto(e@, e@.len() as int),
        _ => Seq::empty(),
    }
}

/// The text of a node that encodes text: its prompt fields joined by
/// newlines, nothing where there are none.
pub open spec fn node_text(node: JsonValue) -> Option<Seq<char>> {
    match inputs_of(node) {
        Some(inp) => {
            let parts = add_prompt_fields(Seq::empty(), inp);
            if parts.len() == 0 {
                None
            } else {
                Some(join(parts, "\n"@))
            }
        },
        None => None,
    }
}

/// The prompt texts of a ComfyUI workflow, each trimmed, non-empty and
/// listed once: exactly the texts that its text-encoding nodes give in
/// their `text_g`, `text_l`, `text` and `prompt` inputs.
pub fn extract_from_workflow(json: &JsonValue) -> (r: Vec<String>)
    ensures
        texts(r@) == workflow_prompts(*json),
        crate::laws::distinct_clean_texts(texts(r@)),
        !(*json is Object) ==> r@.len() == 0,
        forall|t: Seq<char>|
            #[trigger] texts(r@).contains(t) <==> crate::laws::offered_by_text_node(
                crate::laws::workflow_nodes(*json),
                t,
            ),
{
    proof {
        crate::laws::law_workflow_prompts_are_offered(*json);
    }
    let mut prompts: Vec<String> = Vec::new();
    let nodes = match json {
        JsonValue::Object(o) => o,
        _ => {
            assert(texts(prompts@) =~= Seq::<Seq<char>>::empty());
            return prompts;
        },
    };
    let mut i: usize = 0;
    assert(texts(prompts@) =~= prompts_upto(nodes@, 0));
    while i < nodes.len()
        invariant
            i <= nodes@.len(),
            texts(prompts@) == prompts_upto(nodes@, i as int),
        decreases nodes@.len() - i,
    {
        let node = &nodes[i].1;
        match class_type(node) {
            Some(ct) => {
                if is_text_encode_node(ct) {
                    match get_member(Some(node), "inputs") {
                        Some(JsonValue::Object(inputs)) => {
                            add_prompt_fields_exec(&mut prompts, inputs);
                        },
                        _ => {},
                    }
                }
            },
            None => {},
        }
        i = i + 1;
    }
    prompts
}

/// The `class_type` of a node.
fn class_type(node: &JsonValue) -> (r: Option<&str>)
    ensures
        match r {
            Some(s) => class_of(*node) == Some(s@),
            None => class_of(*node) is None,
        },
{
    match get_member(Some(node), "class_type") {
        Some(JsonValue::String(s)) => Some(s.as_str()),
        _ => None,
    }
}

/// The `class_type` of a node, empty where it has none.
fn class_type_or_empty(node: &JsonValue) -> (r: &str)
    ensures
        r@ == class_or_empty(*node),
{
    match class_type(node) {
        Some(s) => s,
        None => {
            proof {
                reveal_strlit("");
            }
            ""
        },
    }
}

/// Adds the trimmed text of a string value to `acc` unless it is empty or
/// already there.
fn add_text_exec(acc: &mut Vec<String>, v: Option<&JsonValue>)
    ensures
        texts(final(acc)@) == add_text(texts(old(acc)@), opt_deref(v)),
{
    match v {
        Some(JsonValue::String(s)) => {
            let cs = chars_of(s.as_str());
            assert(cs@.subrange(0, cs@.len() as int) == cs@);
            match trimmed_non_empty(&cs, 0, cs.len()) {
                Some(t) => {
                    if !contains_string(acc, &t) {
                        let ghost prev = acc@;
                        acc.push(t);
                        assert(texts(acc@) =~= texts(prev).push(t@));
                    }
                },
                None => {},
            }
        },
        _ => {},
    }
}

/// Adds the texts of the prompt fields of `inputs` to `acc`.
fn add_prompt_fields_exec(acc: &mut Vec<String>, inputs: &Vec<(String, JsonValue)>)
    ensures
        texts(final(acc)@) == add_prompt_fields(texts(old(acc)@), inputs@),
{
    add_text_exec(acc, member_of(inputs, "text_g"));
    add_text_exec(acc, member_of(inputs, "text_l"));
    add_text_exec(acc, member_of(inputs, "text"));
    add_text_exec(acc, member_of(inputs, "prompt"));
}

/// The text of a text-encoder node.
fn extract_text_from_node(node: &JsonValue) -> (r: Option<String>)
    ensures
        opt_view(r) == node_text(*node),
{
    let inputs = match get_member(Some(node), "inputs") {
        Some(JsonValue::Object(i)) => i,
        _ => return None,
    };
    let mut parts: Vec<String> = Vec::new();
    assert(texts(parts@) =~= Seq::<Seq<char>>::empty());
    add_prompt_fields_exec(&mut parts, inputs);
    if parts.len() == 0 {
        None
    } else {
        Some(join_strings(&parts, "\n"))
    }
}

/// Whether a node class encodes prompt text.
fn is_text_encode_node(class_type: &str) -> (b: bool)
    ensures
        b == is_text_encode_class(class_type@),
{
    str_eq(class_type, "CLIPTextEncode") || str_eq(class_type, "CLIPTextEncodeSDXL") || str_eq(
        class_type,
        "CLIPTextEncodeFlux",
    ) || str_eq(class_type, "TextEncodeQwenImageEdit") || str_eq(
        class_type,
        "TextEncodeQwenImageEditPlus",
    ) || contains_str(class_type, "Prompt") || contains_str(class_type, "TextEncode")
}

/// A node class that loads the generation model.
pub open spec fn is_model_class(ct: Seq<char>) -> bool {
    ||| ct == "CheckpointLoaderSimple"@
    ||| ct == "CheckpointLoader"@
    ||| ct == "CheckpointLoaderNF4"@
    ||| ct == "UNETLoader"@
    ||| ct == "UnetLoaderGGUF"@
}

/// The model named in the input `field` of a model-loader node.
pub open spec fn model_of_node(node: JsonValue, field: Seq<char>) -> Option<Seq<char>> {
    if !is_model_class(class_or_empty(node)) {
        None
    } else {
        match text_of(get(get(Some(node), "inputs"@), field)) {
            Some(t) => non_empty_text(trim(t)),
            None => None,
        }
    }
}

/// The first model named in input `field` among nodes `i..`.
pub open spec fn model_from(nodes: Seq<(String, JsonValue)>, field: Seq<char>, i: int) -> Option<
    Seq<char>,
>
    decreases nodes.len() - i,
{
    if i < 0 || i >= nodes.len() {
        None
    } else {
        match model_of_node(nodes[i].1, field) {
            Some(m) => Some(m),
            None => model_from(nodes, field, i + 1),
        }
    }
}

/// The generation model of a workflow: the first `ckpt_name` of a loader
/// node, else the first `unet_name`.
pub open spec fn workflow_model(json: JsonValue) -> Option<Seq<char>> {
    match json {
        JsonValue::Object(e) => match model_from(e@, "ckpt_name"@, 0) {
            Some(m) => Some(m),
            None => model_from(e@, "unet_name"@, 0),
        },
        _ => None,
    }
}

fn extract_model(json: &JsonValue) -> (r: Option<String>)
    ensures
        opt_view(r) == workflow_model(*json),
{
    let nodes = match json {
        JsonValue::Object(o) => o,
        _ => return None,
    };
    match model_in_field(nodes, "ckpt_name") {
        Some(m) => Some(m),
        None => model_in_field(nodes, "unet_name"),
    }
}

/// The first model named in input `field` of a loader node.
fn model_in_field(nodes: &Vec<(String, JsonValue)>, field: &str) -> (r: Option<String>)
    ensures
        opt_view(r) == model_from(nodes@, field@, 0),
{
    let mut i: usize = 0;
    while i < nodes.len()
        invariant
            i <= nodes@.len(),
            model_from(nodes@, field@, 0) == model_from(nodes@, field@, i as int),
        decreases nodes@.len() - i,
    {
        let node = &nodes[i].1;
        if is_generation_model_node(class_type_or_empty(node)) {
            let inputs = get_member(Some(node), "inputs");
            match value_to_string(get_member(inputs, field)) {
                Some(v) => {
                    match non_empty(v) {
                        Some(m) => return Some(m),
                        None => {},
                    }
                },
                None => {},
            }
        }
        i = i + 1;
    }
    None
}

/// Whether a node class loads the generation model.
fn is_generation_model_node(class_type: &str) -> (b: bool)
    ensures
        b == is_model_class(class_type@),
{
    str_eq(class_type, "CheckpointLoaderSimple") || str_eq(class_type, "CheckpointLoader")
        || str_eq(class_type, "CheckpointLoaderNF4") || str_eq(class_type, "UNETLoader") || str_eq(
        class_type,
        "UnetLoaderGGUF",
    )
}

/// The text of a string value, or the printed form of a number.
fn value_to_string(value: Option<&JsonValue>) -> (r: Option<String>)
    ensures
        opt_view(r) == text_of(opt_deref(value)),
{
    match value {
        Some(JsonValue::String(s)) => Some(s.clone()),
        Some(JsonValue::Number(n)) => Some(n.clone()),
        _ => None,
    }
}

/// The text trimmed, or nothing when that is empty.
fn non_empty(value: String) -> (r: Option<String>)
    ensures
        opt_view(r) == non_empty_text(trim(value@)),
{
    let cs = chars_of(value.as_str());
    assert(cs@.subrange(0, cs@.len() as int) == cs@);
    trimmed_non_empty(&cs, 0, cs.len())
}

/// `acc` with the entry `name`/`weight` appended unless the name is there.
pub open spec fn push_lora_spec(acc: Seq<LoraSpec>, name: Seq<char>, weight: Seq<char>) -> Seq<
    LoraSpec,
> {
    if has_lora_named(acc, name) {
        acc
    } else {
        acc.push(LoraSpec { name, weight })
    }
}

/// The weight shown for a LoRA loader: the model strength, or both
/// strengths as `model / clip` where they differ.
pub open spec fn format_weight(model: Option<Seq<char>>, clip: Option<Seq<char>>) -> Option<
    Seq<char>,
> {
    match (model, clip) {
        (Some(m), Some(c)) => if m == c {
            Some(m)
        } else {
            Some(m + " / "@ + c)
        },
        (Some(m), None) => Some(m),
        (None, Some(c)) => Some(c),
        (None, None) => None,
    }
}

/// A value or, where there is none, the weight `1`.
pub open spec fn or_one(w: Option<Seq<char>>) -> Seq<char> {
    match w {
        Some(x) => x,
        None => "1"@,
    }
}

/// The trimmed, non-empty text of a value.
pub open spec fn name_of(v: Option<JsonValue>) -> Option<Seq<char>> {
    match text_of(v) {
        Some(t) => non_empty_text(trim(t)),
        None => None,
    }
}

/// `acc` with the `lora_name` entry of a loader's inputs added.
pub open spec fn add_named_lora(acc: Seq<LoraSpec>, inputs: Seq<(String, JsonValue)>) -> Seq<
    LoraSpec,
> {
    match name_of(member(inputs, "lora_name"@)) {
        Some(name) => push_lora_spec(
            acc,
            name,
            or_one(
                format_weight(
                    text_of(member(inputs, "strength_model"@)),
                    text_of(member(inputs, "strength_clip"@)),
                ),
            ),
        ),
        None => acc,
    }
}

/// `acc` with the LoRA of one object-valued input added (the entries of
/// `Power Lora Loader` style nodes), unless it is switched off.
pub open spec fn add_entry_lora(acc: Seq<LoraSpec>, value: JsonValue) -> Seq<LoraSpec> {
    match value {
        JsonValue::Object(e) => if bool_of(member(e@, "on"@)) == Some(false) {
            acc
        } else {
            match name_of(member(e@, "lora"@)) {
                Some(name) => push_lora_spec(
                    acc,
                    name,
                    match text_of(member(e@, "strength"@)) {
                        Some(w) => w,
                        None => or_one(text_of(member(e@, "strength_model"@))),
                    },
                ),
                None => acc,
            }
        },
        _ => acc,
    }
}

/// `acc` with the LoRAs of the first `n` inputs added.
pub open spec fn entry_loras_upto(acc: Seq<LoraSpec>, inputs: Seq<(String, JsonValue)>, n: int) -> Seq<
    LoraSpec,
>
    decreases n,
{
    if n <= 0 {
        acc
    } else {
        add_entry_lora(entry_loras_upto(acc, inputs, n - 1), inputs[n - 1].1)
    }
}

/// `acc` with the LoRAs of one node added, where its class names a LoRA.
pub open spec fn node_loras(acc: Seq<LoraSpec>, node: JsonValue) -> Seq<LoraSpec> {
    if !contains(lowercase_text(class_or_empty(node)), "lora"@) {
        acc
    } else {
        match inputs_of(node) {
            Some(inp) => entry_loras_upto(add_named_lora(acc, inp), inp, inp.len() as int),
            None => acc,
        }
    }
}

/// The LoRAs of the first `n` nodes.
pub open spec fn loras_upto(nodes: Seq<(String, JsonValue)>, n: int) -> Seq<LoraSpec>
    decreases n,
{
    if n <= 0 {
        Seq::empty()
    } else {
        node_loras(loras_upto(nodes, n - 1), nodes[n - 1].1)
    }
}

/// The LoRAs of a workflow, first occurrence of each name kept.
pub open spec fn workflow_loras(json: JsonValue) -> Seq<LoraSpec> {
    match json {
        JsonValue::Object(e) => loras_upto(e@, e@.len() as int),
        _ => Seq::empty(),
    }
}

/// The LoRAs of a workflow's LoRA nodes, first occurrence of each name
/// kept: each named by a LoRA node's `lora_name` input or by one of its
/// switched-on entries, its name trimmed and non-empty.
pub fn extract_loras(json: &JsonValue) -> (r: Vec<LoraInfo>)
    ensures
        lora_views(r@) == workflow_loras(*json),
        crate::laws::clean_lora_names(lora_views(r@)),
        crate::laws::offered_by_nodes(lora_views(r@), crate::laws::workflow_nodes(*json)),
{
    proof {
        crate::laws::law_workflow_loras_from_lora_nodes(*json);
    }
    let mut loras: Vec<LoraInfo> = Vec::new();
    assert(lora_views(loras@) =~= Seq::<LoraSpec>::empty());
    let nodes = match json {
        JsonValue::Object(o) => o,
        _ => return loras,
    };
    let mut i: usize = 0;
    while i < nodes.len()
        invariant
            i <= nodes@.len(),
            lora_views(loras@) == loras_upto(nodes@, i as int),
        decreases nodes@.len() - i,
    {
        let node = &nodes[i].1;
        let class_type = class_type_or_empty(node);
        let lower = to_lowercase(class_type);
        if contains_str(lower.as_str(), "lora") {
            match get_member(Some(node), "inputs") {
                Some(JsonValue::Object(inputs)) => {
                    match value_to_string(member_of(inputs, "lora_name")) {
                        Some(v) => match non_empty(v) {
                            Some(name) => {
                                let model_weight = value_to_string(
                                    member_of(inputs, "strength_model"),
                                );
                                let clip_weight = value_to_string(member_of(inputs, "strength_clip"));
                                let weight = match format_lora_weight(&model_weight, &clip_weight) {
                                    Some(w) => w,
                                    None => one(),
                                };
                                push_lora(&mut loras, name, weight);
                            },
                            None => {},
                        },
                        None => {},
                    }
                    let ghost start = lora_views(loras@);
                    let mut k: usize = 0;
                    while k < inputs.len()
                        invariant
                            k <= inputs@.len(),
                            lora_views(loras@) == entry_loras_upto(start, inputs@, k as int),
                        decreases inputs@.len() - k,
                    {
                        add_entry_lora_exec(&mut loras, &inputs[k].1);
                        k = k + 1;
                    }
                },
                _ => {},
            }
        }
        i = i + 1;
    }
    loras
}

/// Adds the LoRA of one object-valued input, unless it is switched off.
fn add_entry_lora_exec(loras: &mut Vec<LoraInfo>, value: &JsonValue)
    ensures
        lora_views(final(loras)@) == add_entry_lora(lora_views(old(loras)@), *value),
{
    let e = match value {
        JsonValue::Object(e) => e,
        _ => return ,
    };
    match member_of(e, "on") {
        Some(JsonValue::Bool(false)) => return ,
        _ => {},
    }
    let name = match value_to_string(member_of(e, "lora")) {
        Some(v) => match non_empty(v) {
            Some(n) => n,
            None => return ,
        },
        None => return ,
    };
    let weight = match value_to_string(member_of(e, "strength")) {
        Some(w) => w,
        None => match value_to_string(member_of(e, "strength_model")) {
            Some(w) => w,
            None => one(),
        },
    };
    push_lora(loras, name, weight);
}

/// The weight `1`.
fn one() -> (s: String)
    ensures
        s@ == "1"@,
{
    let cs = chars_of("1");
    assert(cs@.subrange(0, cs@.len() as int) == cs@);
    string_of(&cs, 0, cs.len())
}

/// Appends a LoRA unless one of that name is listed already.
fn push_lora(loras: &mut Vec<LoraInfo>, name: String, weight: String)
    ensures
        lora_views(final(loras)@) == push_lora_spec(lora_views(old(loras)@), name@, weight@),
{
    let mut i: usize = 0;
    while i < loras.len()
        invariant
            i <= loras@.len(),
            forall|j: int| 0 <= j < i ==> lora_views(loras@)[j].name != name@,
        decreases loras@.len() - i,
    {
        if loras[i].name == name {
            assert(lora_views(loras@)[i as int].name == name@);
            return ;
        }
        i = i + 1;
    }
    let ghost prev = loras@;
    let item = LoraInfo { name, weight };
    loras.push(item);
    assert(lora_views(loras@) =~= lora_views(prev).push(item@)) by {
        assert forall|k: int| 0 <= k < loras@.len() implies #[trigger] lora_views(loras@)[k]
            == lora_views(prev).push(item@)[k] by {
            if k < prev.len() {
                assert(loras@[k] == prev[k]);
            }
        }
    }
}

/// The weight shown for a LoRA loader's two strengths.
fn format_lora_weight(model_weight: &Option<String>, clip_weight: &Option<String>) -> (r: Option<
    String,
>)
    ensures
        opt_view(r) == format_weight(opt_view(*model_weight), opt_view(*clip_weight)),
{
    match (model_weight, clip_weight) {
        (Some(model), Some(clip)) => {
            if *model == *clip {
                Some(model.clone())
            } else {
                let mut s = model.clone();
                append_str(&mut s, " / ");
                append_str(&mut s, clip.as_str());
                Some(s)
            }
        },
        (Some(model), None) => Some(model.clone()),
        (None, Some(clip)) => Some(clip.clone()),
        (None, None) => None,
    }
}

/// Which conditioning input of a sampler is being traced.
#[derive(Clone, Copy)]
pub enum PromptRole {
    Positive,
    Negative,
}

/// The input that carries conditioning of the given role.
pub open spec fn role_field(role: PromptRole) -> Seq<char> {
    match role {
        PromptRole::Positive => "positive"@,
        PromptRole::Negative => "negative"@,
    }
}

/// The node id that a link value (`[id, slot]`) refers to.
pub open spec fn ref_id(v: Option<JsonValue>) -> Option<Seq<char>> {
    match v {
        Some(JsonValue::Array(a)) => if a@.len() > 0 {
            name_of(Some(a@[0]))
        } else {
            None
        },
        _ => None,
    }
}

/// The ids of the nodes.
pub open spec fn node_keys(nodes: Seq<(String, JsonValue)>) -> Set<Seq<char>> {
    nodes.map_values(|p: (String, JsonValue)| p.0@).to_set()
}

/// How many node ids are not yet visited.
pub open spec fn unvisited(nodes: Seq<(String, JsonValue)>, visited: Set<Seq<char>>) -> nat {
    node_keys(nodes).difference(visited).len()
}

/// The ids listed in a visited list.
pub open spec fn visited_set(v: Seq<String>) -> Set<Seq<char>> {
    texts(v).to_set()
}

pub proof fn lemma_member_index(nodes: Seq<(String, JsonValue)>, id: Seq<char>) -> (k: int)
    requires
        member(nodes, id) is Some,
    ensures
        0 <= k < nodes.len(),
        nodes[k].0@ == id,
    decreases nodes.len(),
{
    if nodes[0].0@ == id {
        0
    } else {
        let k = lemma_member_index(nodes.drop_first(), id);
        k + 1
    }
}

pub proof fn lemma_member_key(nodes: Seq<(String, JsonValue)>, id: Seq<char>)
    requires
        member(nodes, id) is Some,
    ensures
        node_keys(nodes).contains(id),
{
    let k = lemma_member_index(nodes, id);
    let ids = nodes.map_values(|p: (String, JsonValue)| p.0@);
    assert(ids[k] == id);
    assert(ids.contains(id));
}

pub proof fn lemma_to_set_push<A>(s: Seq<A>, a: A)
    ensures
        s.push(a).to_set() == s.to_set().insert(a),
{
    assert forall|x: A| #[trigger] s.push(a).to_set().contains(x) <==> s.to_set().insert(a).contains(x) by {
        if s.push(a).contains(x) {
            let j = choose|j: int| 0 <= j < s.push(a).len() && s.push(a)[j] == x;
            if j < s.len() {
                assert(s[j] == x);
            }
        }
        if s.contains(x) {
            let j = choose|j: int| 0 <= j < s.len() && s[j] == x;
            assert(s.push(a)[j] == x);
        }
        if x == a {
            assert(s.push(a)[s.len() as int] == a);
        }
    }
    assert(s.push(a).to_set() =~= s.to_set().insert(a));
}

pub proof fn lemma_unvisited_decreases(
    nodes: Seq<(String, JsonValue)>,
    visited: Set<Seq<char>>,
    id: Seq<char>,
    later: Set<Seq<char>>,
)
    requires
        node_keys(nodes).contains(id),
        !visited.contains(id),
        visited.insert(id).subset_of(later),
    ensures
        unvisited(nodes, later) < unvisited(nodes, visited),
{
    let keys = node_keys(nodes);
    let d = keys.difference(visited);
    vstd::seq_lib::seq_to_set_is_finite(nodes.map_values(|p: (String, JsonValue)| p.0@));
    vstd::set_lib::lemma_len_subset(d, keys);
    assert(d.contains(id));
    assert(keys.difference(later).subset_of(d.remove(id)));
    vstd::set_lib::lemma_len_subset(keys.difference(later), d.remove(id));
}

/// Traces conditioning from node `id` back to the text encoder that made
/// it, through the role's input and then `conditioning`; a node that zeroes
/// conditioning ends the trace, and no node is visited twice. Gives the text
/// and the visited ids.
pub open spec fn resolve(
    nodes: Seq<(String, JsonValue)>,
    id: Seq<char>,
    role: PromptRole,
    visited: Set<Seq<char>>,
) -> (Option<Seq<char>>, Set<Seq<char>>)
    decreases unvisited(nodes, visited),
{
    if visited.contains(id) {
        (None, visited)
    } else {
        let v1 = visited.insert(id);
        match member(nodes, id) {
            None => (None, v1),
            Some(node) => {
                let ct = class_or_empty(node);
                if contains(ct, "ZeroOut"@) {
                    (None, v1)
                } else if is_text_encode_class(ct) && node_text(node) is Some {
                    (node_text(node), v1)
                } else {
                    match inputs_of(node) {
                        None => (None, v1),
                        Some(inp) => {
                            proof {
                                lemma_member_key(nodes, id);
                                lemma_unvisited_decreases(nodes, visited, id, v1);
                            }
                            let first = match ref_id(member(inp, role_field(role))) {
                                Some(next) => resolve(nodes, next, role, v1),
                                None => (None, v1),
                            };
                            if first.0 is Some {
                                first
                            } else {
                                let v2 = first.1.union(v1);
                                proof {
                                    lemma_unvisited_decreases(nodes, visited, id, v2);
                                }
                                match ref_id(member(inp, "conditioning"@)) {
                                    Some(next) => resolve(nodes, next, role, v2),
                                    None => (None, v2),
                                }
                            }
                        },
                    }
                }
            },
        }
    }
}

/// The text that conditioning from node `id` traces back to, for a
/// workflow whose nodes are `nodes`.
pub open spec fn resolve_from(
    nodes: Seq<(String, JsonValue)>,
    id: Option<Seq<char>>,
    role: PromptRole,
) -> Option<Seq<char>> {
    match id {
        Some(i) => resolve(nodes, i, role, Set::empty()).0,
        None => None,
    }
}

/// A node class that samples.
pub open spec fn is_sampler_class(ct: Seq<char>) -> bool {
    contains(ct, "KSampler"@)
}

/// Positive and negative prompts from the sampler and guider nodes `i..`:
/// the first such node that gives either one decides both.
pub open spec fn sampler_scan(
    nodes: Seq<(String, JsonValue)>,
    i: int,
    pos: Option<Seq<char>>,
    neg: Option<Seq<char>>,
) -> (Option<Seq<char>>, Option<Seq<char>>)
    decreases nodes.len() - i,
{
    if i < 0 || i >= nodes.len() {
        (pos, neg)
    } else {
        let node = nodes[i].1;
        let ct = class_or_empty(node);
        if !is_sampler_class(ct) && ct != "CFGGuider"@ {
            sampler_scan(nodes, i + 1, pos, neg)
        } else {
            match inputs_of(node) {
                None => sampler_scan(nodes, i + 1, pos, neg),
                Some(inp) => {
                    let p2 = if pos is None {
                        resolve_from(nodes, ref_id(member(inp, "positive"@)), PromptRole::Positive)
                    } else {
                        pos
                    };
                    let n2 = if neg is None {
                        resolve_from(nodes, ref_id(member(inp, "negative"@)), PromptRole::Negative)
                    } else {
                        neg
                    };
                    if p2 is Some || n2 is Some {
                        (p2, n2)
                    } else {
                        sampler_scan(nodes, i + 1, p2, n2)
                    }
                },
            }
        }
    }
}

/// The structured fields of a ComfyUI workflow.
pub open spec fn workflow_details(json: JsonValue) -> DetailsSpec {
    match json {
        JsonValue::Object(e) => {
            let s = sampler_scan(e@, 0, None, None);
            DetailsSpec {
                model: workflow_model(json),
                loras: workflow_loras(json),
                positive: s.0,
                negative: s.1,
            }
        },
        _ => empty_details(),
    }
}

/// Model, LoRAs and positive/negative prompts of a ComfyUI workflow; each
/// field is empty where the workflow does not give it.
pub fn extract_details_from_workflow(json: &JsonValue) -> (d: PromptDetails)
    ensures
        d@ == workflow_details(*json),
        crate::laws::clean_details(d@),
        crate::laws::offered_by_nodes(d@.loras, crate::laws::workflow_nodes(*json)),
{
    proof {
        crate::laws::law_workflow_details_clean(*json);
        crate::laws::law_workflow_loras_from_lora_nodes(*json);
    }
    let nodes = match json {
        JsonValue::Object(o) => o,
        _ => return PromptDetails::default(),
    };
    let model = extract_model(json);
    let loras = extract_loras(json);
    let mut positive_prompt: Option<String> = None;
    let mut negative_prompt: Option<String> = None;
    let mut i: usize = 0;
    let ghost scan = sampler_scan(nodes@, 0, None, None);
    assert(workflow_details(*json) == DetailsSpec {
        model: opt_view(model),
        loras: lora_views(loras@),
        positive: scan.0,
        negative: scan.1,
    });
    while i < nodes.len()
        invariant
            i <= nodes@.len(),
            scan == sampler_scan(nodes@, 0, None, None),
            workflow_details(*json) == (DetailsSpec {
                model: opt_view(model),
                loras: lora_views(loras@),
                positive: scan.0,
                negative: scan.1,
            }),
            opt_view(positive_prompt) is None,
            opt_view(negative_prompt) is None,
            sampler_scan(nodes@, 0, None, None) == sampler_scan(nodes@, i as int, None, None),
            crate::laws::clean_details(workflow_details(*json)),
            crate::laws::offered_by_nodes(
                workflow_details(*json).loras,
                crate::laws::workflow_nodes(*json),
            ),
        decreases nodes@.len() - i,
    {
        let node = &nodes[i].1;
        let class_type = class_type_or_empty(node);
        if is_sampler_node(class_type) || str_eq(class_type, "CFGGuider") {
            match get_member(Some(node), "inputs") {
                Some(JsonValue::Object(inputs)) => {
                    positive_prompt = match ref_node_id(member_of(inputs, "positive")) {
                        Some(id) => resolve_conditioning_text(nodes, id.as_str(), PromptRole::Positive),
                        None => None,
                    };
                    negative_prompt = match ref_node_id(member_of(inputs, "negative")) {
                        Some(id) => resolve_conditioning_text(nodes, id.as_str(), PromptRole::Negative),
                        None => None,
                    };
                    if positive_prompt.is_some() || negative_prompt.is_some() {
                        return PromptDetails { model, loras, positive_prompt, negative_prompt };
                    }
                },
                _ => {},
            }
        }
        i = i + 1;
    }
    PromptDetails { model, loras, positive_prompt, negative_prompt }
}

/// Whether a node class samples.
fn is_sampler_node(class_type: &str) -> (b: bool)
    ensures
        b == is_sampler_class(class_type@),
{
    contains_str(class_type, "KSampler")
}

/// The node id that a link value refers to.
fn ref_node_id(value: Option<&JsonValue>) -> (r: Option<String>)
    ensures
        opt_view(r) == ref_id(opt_deref(value)),
{
    match value {
        Some(JsonValue::Array(a)) => {
            if a.len() == 0 {
                return None;
            }
            match value_to_string(Some(&a[0])) {
                Some(v) => non_empty(v),
                None => None,
            }
        },
        _ => None,
    }
}

/// The text that conditioning from `node_id` traces back to.
pub fn resolve_conditioning_text(
    nodes: &Vec<(String, JsonValue)>,
    node_id: &str,
    role: PromptRole,
) -> (r: Option<String>)
    ensures
        opt_view(r) == resolve(nodes@, node_id@, role, Set::empty()).0,
{
    let mut visited: Vec<String> = Vec::new();
    assert(visited_set(visited@) =~= Set::<Seq<char>>::empty());
    resolve_conditioning_text_inner(nodes, node_id, role, &mut visited)
}

/// The text that conditioning from `node_id` traces back to, `visited`
/// holding the ids already traced. An id already traced gives nothing and
/// adds nothing; otherwise the id is added before the trace goes on, and a
/// node that zeroes conditioning gives nothing.
pub fn resolve_conditioning_text_inner(
    nodes: &Vec<(String, JsonValue)>,
    node_id: &str,
    role: PromptRole,
    visited: &mut Vec<String>,
) -> (r: Option<String>)
    ensures
        (opt_view(r), visited_set(final(visited)@)) == resolve(
            nodes@,
            node_id@,
            role,
            visited_set(old(visited)@),
        ),
        visited_set(old(visited)@).subset_of(visited_set(final(visited)@)),
        visited_set(old(visited)@).contains(node_id@) ==> r is None && visited_set(final(visited)@)
            == visited_set(old(visited)@),
        !visited_set(old(visited)@).contains(node_id@) ==> visited_set(old(visited)@).insert(
            node_id@,
        ).subset_of(visited_set(final(visited)@)),
        !visited_set(old(visited)@).contains(node_id@) && (member(nodes@, node_id@) matches Some(
            node,
        ) && contains(class_or_empty(node), "ZeroOut"@)) ==> r is None,
    decreases unvisited(nodes@, visited_set(old(visited)@)),
{
    proof {
        crate::laws::law_resolve_visits_once(nodes@, node_id@, role, visited_set(visited@));
    }
    let ghost v0 = visited_set(visited@);
    let id_chars = chars_of(node_id);
    assert(id_chars@.subrange(0, id_chars@.len() as int) == id_chars@);
    let id = string_of(&id_chars, 0, id_chars.len());
    if contains_string(visited, &id) {
        return None;
    }
    let ghost prev = visited@;
    visited.push(id);
    assert(texts(visited@) =~= texts(prev).push(node_id@));
    proof {
        lemma_to_set_push(texts(prev), node_id@);
    }
    assert(visited_set(visited@) =~= v0.insert(node_id@));
    let ghost v1 = visited_set(visited@);
    let node = match member_of(nodes, node_id) {
        Some(n) => n,
        None => return None,
    };
    let class_type = class_type_or_empty(node);
    if contains_str(class_type, "ZeroOut") {
        return None;
    }
    if is_text_encode_node(class_type) {
        match extract_text_from_node(node) {
            Some(text) => return Some(text),
            None => {},
        }
    }
    let inputs = match get_member(Some(node), "inputs") {
        Some(JsonValue::Object(i)) => i,
        _ => return None,
    };
    proof {
        lemma_member_key(nodes@, node_id@);
        lemma_unvisited_decreases(nodes@, v0, node_id@, v1);
    }
    let field = match role {
        PromptRole::Positive => "positive",
        PromptRole::Negative => "negative",
    };
    assert(field@ == role_field(role));
    match ref_node_id(member_of(inputs, field)) {
        Some(next_id) => {
            let text = resolve_conditioning_text_inner(nodes, next_id.as_str(), role, visited);
            if text.is_some() {
                return text;
            }
        },
        None => {},
    }
    let ghost v2 = visited_set(visited@);
    assert(v2.union(v1) =~= v2);
    proof {
        lemma_unvisited_decreases(nodes@, v0, node_id@, v2);
    }
    match ref_node_id(member_of(inputs, "conditioning")) {
        Some(next_id) => resolve_conditioning_text_inner(nodes, next_id.as_str(), role, visited),
        None => None,
    }
}

} // verus!
