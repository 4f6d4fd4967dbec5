//! What the policy asks of a llama-server, and how it reads the answers.

use crate::json;
use crate::json::JsonView;
use crate::text;
use serde_json::Value;
use vstd::prelude::*;

verus! {

/// A single llama.cpp slot as reported by `GET /slots`.
#[derive(Debug, Clone, Copy, PartialEq, Eq, Structural)]
pub struct SlotState {
    pub id: u32,
    pub is_processing: bool,
    /// The slot's current context position: the `n_prompt_tokens` that the
    /// backend reports for it.
    pub n_tokens: u64,
}

/// The slot that one element of a `/slots` report describes; nothing for an
/// element without a numeric `id`. A slot that does not say whether it is
/// processing counts as processing, and one without a position is at zero.
pub open spec fn slot_view(item: JsonView) -> Option<SlotState> {
    match uint_member(item, "id"@) {
        Some(id) => Some(
            SlotState {
                id: id as u32,
                is_processing: match bool_member(item, "is_processing"@) {
                    Some(b) => b,
                    None => true,
                },
                n_tokens: match uint_member(item, "n_prompt_tokens"@) {
                    Some(n) => n,
                    None => 0,
                },
            },
        ),
        None => None,
    }
}

/// The non-negative integer under `key`, if there is one.
pub open spec fn uint_member(item: JsonView, key: Seq<char>) -> Option<u64> {
    match json::member_view(item, key) {
        Some(v) => json::uint_view(v),
        None => None,
    }
}

/// The boolean under `key`, if there is one.
pub open spec fn bool_member(item: JsonView, key: Seq<char>) -> Option<bool> {
    match json::member_view(item, key) {
        Some(v) => json::bool_view(v),
        None => None,
    }
}

/// The slots that the elements of a report describe, in order.
pub open spec fn slot_views(items: Seq<JsonView>) -> Seq<SlotState>
    decreases items.len(),
{
    if items.len() == 0 {
        Seq::empty()
    } else {
        match slot_view(items.last()) {
            Some(s) => slot_views(items.drop_last()).push(s),
            None => slot_views(items.drop_last()),
        }
    }
}

pub(crate) fn get_u64(item: &Value, key: &str) -> (r: Option<u64>)
    ensures
        r == uint_member(json::json_view(*item), key@),
{
    match json::member(item, key) {
        Some(v) => json::as_u64(v),
        None => None,
    }
}

pub(crate) fn get_bool(item: &Value, key: &str) -> (r: Option<bool>)
    ensures
        r == bool_member(json::json_view(*item), key@),
{
    match json::member(item, key) {
        Some(v) => json::as_bool(v),
        None => None,
    }
}

/// The slot that a report's `id`, `is_processing` and `n_prompt_tokens`
/// describe.
pub fn slot_state(id: Option<u64>, is_processing: Option<bool>, n_prompt_tokens: Option<u64>) -> (r: Option<SlotState>)
    ensures
        r == (match id {
            Some(x) => Some(
                SlotState {
                    id: x as u32,
                    is_processing: match is_processing {
                        Some(b) => b,
                        None => true,
                    },
                    n_tokens: match n_prompt_tokens {
                        Some(n) => n,
                        None => 0,
                    },
                },
            ),
            None => None,
        }),
{
    match id {
        Some(x) => Some(
            SlotState {
                id: #[verifier::truncate] (x as u32),
                is_processing: is_processing.unwrap_or(true),
                n_tokens: n_prompt_tokens.unwrap_or(0),
            },
        ),
        None => None,
    }
}

/// Read the answer to `GET /slots`: an error if it is no array, else the slots
/// that its elements describe, in order, without the elements that name none.
pub fn decode_slots(report: &Value) -> (r: Result<Vec<SlotState>, String>)
    ensures
        match (r, json::elements_view(json::json_view(*report))) {
            (Ok(slots), Some(items)) => slots@ == slot_views(items),
            (Err(e), None) => e@ == "GET /slots: not an array"@,
            _ => false,
        },
{
    match json::elements(report) {
        Some(items) => {
            let ghost docs = json::json_views(items@);
            let mut out: Vec<SlotState> = Vec::new();
            let mut i: usize = 0;
            while i < items.len()
                invariant
                    i <= items@.len(),
                    docs == json::json_views(items@),
                    out@ == slot_views(docs.take(i as int)),
                decreases items@.len() - i,
            {
                let item = &items[i];
                let s = slot_state(
                    get_u64(item, "id"),
                    get_bool(item, "is_processing"),
                    get_u64(item, "n_prompt_tokens"),
                );
                proof {
                    assert(docs.take(i + 1).drop_last() =~= docs.take(i as int));
                }
                if let Some(s) = s {
                    out.push(s);
                }
                i += 1;
            }
            proof {
                assert(docs.take(docs.len() as int) =~= docs);
            }
            Ok(out)
        },
        None => Err("GET /slots: not an array".to_owned()),
    }
}

/// The body that forwards a prompt to one slot and generates nothing.
pub open spec fn prefill_view(slot: u32, messages: JsonView) -> JsonView {
    JsonView::Object(
        Map::empty()
            .insert("messages"@, messages)
            .insert("stream"@, JsonView::Bool(false))
            .insert("id_slot"@, JsonView::Uint(slot as u64))
            .insert("max_tokens"@, JsonView::Uint(0)),
    )
}

/// The body that forwards a prompt to one slot and generates nothing.
pub fn prefill_body(slot: u32, messages: &Value) -> (body: Value)
    ensures
        json::json_view(body) == prefill_view(slot, json::json_view(*messages)),
{
    let mut body = json::empty_object();
    json::set_member(&mut body, "messages", messages.clone());
    json::set_member(&mut body, "stream", json::of_bool(false));
    json::set_member(&mut body, "id_slot", json::of_u64(slot as u64));
    json::set_member(&mut body, "max_tokens", json::of_u64(0));
    body
}

/// The body that names the file of a save or a restore.
pub fn filename_body(name: &str) -> (body: Value)
    ensures
        json::json_view(body) == JsonView::Object(Map::empty().insert("filename"@, JsonView::Text(name@))),
{
    let mut body = json::empty_object();
    json::set_member(&mut body, "filename", json::of_text(name));
    body
}

/// What stands for an answer whose body could not be read as JSON.
pub fn unparsed_body(error: &str) -> (body: Value)
    ensures
        json::json_view(body) == JsonView::Object(Map::empty().insert("unparsed"@, JsonView::Text(error@))),
{
    let mut body = json::empty_object();
    json::set_member(&mut body, "unparsed", json::of_text(error));
    body
}

/// The three requests that the backend answers with a status and a document.
#[derive(Debug, Clone, Copy, PartialEq, Eq, Structural)]
pub enum Operation {
    Prefill,
    Save,
    Restore,
}

impl Operation {
    /// What an error of the operation starts with.
    pub open spec fn label_text(self) -> Seq<char> {
        match self {
            Operation::Prefill => "prefill_only"@,
            Operation::Save => "save"@,
            Operation::Restore => "restore"@,
        }
    }

    /// What an error of the operation starts with.
    pub fn label(self) -> (label: &'static str)
        ensures
            label@ == self.label_text(),
    {
        match self {
            Operation::Prefill => "prefill_only",
            Operation::Save => "save",
            Operation::Restore => "restore",
        }
    }

    /// The path that the operation on a slot is posted to.
    pub open spec fn path_text(self, slot: u32) -> Seq<char> {
        match self {
            Operation::Prefill => "/v1/chat/completions"@,
            Operation::Save => "/slots/"@ + text::decimal(slot as nat) + "?action=save"@,
            Operation::Restore => "/slots/"@ + text::decimal(slot as nat) + "?action=restore"@,
        }
    }

    /// The path that the operation on a slot is posted to.
    pub fn path(self, slot: u32) -> (path: String)
        ensures
            path@ == self.path_text(slot),
    {
        match self {
            Operation::Prefill => "/v1/chat/completions".to_owned(),
            Operation::Save => text::join3("/slots/", text::decimal_text(slot as u64).as_str(), "?action=save"),
            Operation::Restore => text::join3("/slots/", text::decimal_text(slot as u64).as_str(), "?action=restore"),
        }
    }

    /// The error that an answer with a refusing status gives.
    pub open spec fn refusal_text(self, code: u16, answer: Seq<char>) -> Seq<char> {
        self.label_text() + ": "@ + text::decimal(code as nat) + ": "@ + answer
    }

    /// The error that an answer with a refusing status gives.
    pub fn refusal(self, code: u16, answer: &str) -> (error: String)
        ensures
            error@ == self.refusal_text(code, answer@),
    {
        let head = text::join3(self.label(), ": ", text::decimal_text(code as u64).as_str());
        text::join3(head.as_str(), ": ", answer)
    }

    /// Whether a status accepts.
    pub open spec fn accepts(code: u16) -> bool {
        code < 300
    }

    /// Judge the backend's answer: a status below 300 accepts, and the answer is
    /// handed on; any other refuses, and the error tells status and answer.
    pub fn judge(self, code: u16, answer: Value) -> (r: Result<Value, String>)
        ensures
            match r {
                Ok(v) => code < 300 && v == answer,
                Err(e) => code >= 300 && e@ == self.refusal_text(code, json::json_display(json::json_view(answer))),
            },
            r is Ok <==> Operation::accepts(code),
    {
        if code < 300 {
            Ok(answer)
        } else {
            Err(self.refusal(code, json::display(&answer).as_str()))
        }
    }
}

/// The address of a path at the backend.
pub fn url(base: &str, path: &str) -> (url: String)
    ensures
        url@ == base@ + path@,
{
    text::join2(base, path)
}

/// What a slot's report says is read off its members: a report without a whole
/// number as `id` names no slot; a slot is idle if and only if its report has the
/// member `is_processing` with the value false; and its position is the whole
/// number under `n_prompt_tokens`, zero without one.
pub proof fn law_slot_is_read_off_its_members(item: JsonView)
    ensures
        slot_view(item) is Some <==> (item matches JsonView::Object(m) && m.contains_key("id"@) && m["id"@] is Uint),
        slot_view(item) matches Some(s) ==> (item matches JsonView::Object(m) && {
            &&& s.id == (m["id"@]->Uint_0) as u32
            &&& !s.is_processing <==> m.contains_key("is_processing"@) && m["is_processing"@] == JsonView::Bool(false)
            &&& m.contains_key("n_prompt_tokens"@) && m["n_prompt_tokens"@] is Uint ==> m["n_prompt_tokens"@]
                == JsonView::Uint(s.n_tokens)
            &&& !(m.contains_key("n_prompt_tokens"@) && m["n_prompt_tokens"@] is Uint) ==> s.n_tokens == 0
        }),
{
}

/// A report is read element by element and in order: an element that names a slot
/// adds that slot and nothing else, any other adds nothing, and what is read of
/// two reports in a row is what is read of each.
pub proof fn law_report_is_read_in_order(before: Seq<JsonView>, item: JsonView, after: Seq<JsonView>)
    ensures
        slot_views(before + seq![item] + after) == slot_views(before) + (match slot_view(item) {
            Some(s) => seq![s],
            None => Seq::empty(),
        }) + slot_views(after),
        slot_views(Seq::empty()) == Seq::<SlotState>::empty(),
    decreases after.len(),
{
    let whole = before + seq![item] + after;
    if after.len() == 0 {
        assert(whole.drop_last() =~= before);
        assert(whole.last() == item);
        assert(slot_views(after) =~= Seq::empty());
        assert(slot_views(whole) =~= slot_views(before) + (match slot_view(item) {
            Some(s) => seq![s],
            None => Seq::empty(),
        }) + slot_views(after));
    } else {
        law_report_is_read_in_order(before, item, after.drop_last());
        assert(whole.drop_last() =~= before + seq![item] + after.drop_last());
        assert(whole.last() == after.last());
        assert(slot_views(whole) =~= slot_views(before) + (match slot_view(item) {
            Some(s) => seq![s],
            None => Seq::empty(),
        }) + slot_views(after));
    }
}

/// Every slot that a report names is among those that are read, and a slot is
/// read as idle only where an element of the report has its number and says that
/// it is not processing.
pub proof fn law_idle_is_only_what_is_reported_idle(items: Seq<JsonView>, s: SlotState)
    ensures
        slot_views(items).contains(s) <==> exists|i: int| 0 <= i < items.len() && slot_view(#[trigger] items[i]) == Some(s),
        slot_views(items).contains(s) && !s.is_processing ==> exists|i: int| #![trigger items[i]] 0 <= i < items.len() && (items[i] matches JsonView::Object(m)
            && m.contains_key("id"@) && m["id"@] is Uint && (m["id"@]->Uint_0) as u32 == s.id
            && m.contains_key("is_processing"@) && m["is_processing"@] == JsonView::Bool(false)),
    decreases items.len(),
{
    if items.len() > 0 {
        let head = items.drop_last();
        let last = items.last();
        law_idle_is_only_what_is_reported_idle(head, s);
        assert(items[items.len() - 1] == last);
        let read = slot_views(items);
        if slot_views(head).contains(s) {
            let j = choose|j: int| 0 <= j < slot_views(head).len() && slot_views(head)[j] == s;
            assert(read[j] == s);
            let i = choose|i: int| 0 <= i < head.len() && slot_view(#[trigger] head[i]) == Some(s);
            assert(items[i] == head[i]);
        }
        if slot_view(last) == Some(s) {
            assert(read.last() == s);
        }
        if read.contains(s) {
            let j = choose|j: int| 0 <= j < read.len() && read[j] == s;
            if j < slot_views(head).len() {
                assert(slot_views(head)[j] == s);
            }
        }
        if exists|i: int| 0 <= i < items.len() && slot_view(#[trigger] items[i]) == Some(s) {
            let i = choose|i: int| 0 <= i < items.len() && slot_view(#[trigger] items[i]) == Some(s);
            if i < head.len() {
                assert(head[i] == items[i]);
            }
            law_slot_is_read_off_its_members(items[i]);
        }
    }
}

/// A prefill runs the messages on the slot that it is meant for, streams nothing,
/// generates nothing, and asks for nothing else.
pub proof fn law_prefill_generates_nothing(slot: u32, messages: JsonView)
    ensures
        prefill_view(slot, messages) matches JsonView::Object(m) && {
            &&& forall|k: Seq<char>| #[trigger] m.contains_key(k) <==> k == "messages"@ || k == "stream"@ || k == "id_slot"@ || k
                == "max_tokens"@
            &&& m["messages"@] == messages
            &&& m["stream"@] == JsonView::Bool(false)
            &&& m["id_slot"@] == JsonView::Uint(slot as u64)
            &&& m["max_tokens"@] == JsonView::Uint(0)
        },
{
    reveal_strlit("messages");
    reveal_strlit("stream");
    reveal_strlit("id_slot");
    reveal_strlit("max_tokens");
    assert("messages"@.len() == 8 && "stream"@.len() == 6 && "id_slot"@.len() == 7 && "max_tokens"@.len() == 10);
}

/// A save and a restore are asked of the slot that they are meant for: the path
/// names the slot in decimal and the action, and nothing else.
pub proof fn law_path_names_slot_and_action(slot: u32)
    ensures
        Operation::Save.path_text(slot) == "/slots/"@ + text::decimal(slot as nat) + "?action=save"@,
        Operation::Restore.path_text(slot) == "/slots/"@ + text::decimal(slot as nat) + "?action=restore"@,
        Operation::Prefill.path_text(slot) == "/v1/chat/completions"@,
{
}

/// Two slots never share a path.
pub proof fn law_paths_tell_slots_apart(a: u32, b: u32)
    requires
        a != b,
    ensures
        Operation::Save.path_text(a) != Operation::Save.path_text(b),
        Operation::Restore.path_text(a) != Operation::Restore.path_text(b),
{
    text::lemma_same_frame("/slots/"@, text::decimal(a as nat), text::decimal(b as nat), "?action=save"@);
    text::lemma_same_frame("/slots/"@, text::decimal(a as nat), text::decimal(b as nat), "?action=restore"@);
    text::law_decimal_tells_numbers_apart(a as nat, b as nat);
}

/// An error of the backend tells the operation, the status and the whole answer.
pub proof fn law_refusal_tells_all(operation: Operation, code: u16, answer: Seq<char>)
    ensures
        operation.refusal_text(code, answer) == (match operation {
            Operation::Prefill => "prefill_only"@,
            Operation::Save => "save"@,
            Operation::Restore => "restore"@,
        }) + ": "@ + text::decimal(code as nat) + ": "@ + answer,
{
}

/// A status accepts if and only if it is below three hundred.
pub proof fn law_status_accepts_below_three_hundred(code: u16)
    ensures
        Operation::accepts(code) <==> code <= 299,
{
}

} // verus!
