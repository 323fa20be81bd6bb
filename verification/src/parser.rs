//! Decoding of chat exports.
//!
//! An export is a JSON document.  Only its root shape is required: a
//! `responderUsername` string and a `requests` array.  Every nested field
//! degrades to a default when absent or mistyped, so that exports of other
//! versions of the format still decode.  The whole decode is specified by
//! [`spec_decode_export`] and its companions over the generic value tree
//! of [`crate::json`].

use vstd::prelude::*;
use crate::json::{
    JsonValue, spec_get, spec_get2, spec_str, spec_str2, spec_str3, spec_as_i64, spec_as_u64,
    parsed_json, get2, get_str1, get_str2, get_str3, chars_eq_str, parse_json, root_shape_error,
};
use crate::text::{
    spec_starts_with, spec_contains_seq, chars_to_string, copy_range, starts_with_str, contains_str,
};

verus! {

/// Error type for decode failures.
#[derive(Debug)]
pub enum ParseError {
    /// The document is not well-formed JSON, or its root lacks the
    /// required fields.
    Json {
        /// The underlying JSON error.
        source: serde_json::Error,
    },
}

/// The root of a decoded chat export.
#[derive(Debug, Clone, PartialEq, Eq)]
pub struct ChatExport {
    /// The display name of the assistant.
    pub responder_username: String,
    /// The request/response exchanges, in order.
    pub requests: Vec<Request>,
}

/// One user/assistant exchange.
#[derive(Debug, Clone, PartialEq, Eq)]
pub struct Request {
    /// Milliseconds since the epoch; `0` when the export carries none.
    pub timestamp: i64,
    /// The model identifier, when the export carries one.
    pub model_id: Option<String>,
    /// The agent name, when the export carries one.
    pub agent_name: Option<String>,
    /// Context items attached to the request.
    pub context: Vec<ContextItem>,
    /// The user's message.
    pub message: Message,
    /// The elements of the assistant's response, in order.
    pub response: Vec<ResponseElement>,
}

/// A user message.
#[derive(Debug, Clone, PartialEq, Eq)]
pub struct Message {
    /// The text of the message; empty when the export carries none.
    pub text: String,
}

/// A context item attached to a request.
#[derive(Debug, Clone, PartialEq, Eq)]
pub enum ContextItem {
    /// A whole file.
    File {
        /// Display name.
        name: String,
        /// Full path.
        path: String,
    },
    /// A line range of a file.
    Selection {
        /// Display name.
        name: String,
        /// Full path.
        path: String,
        /// First line of the range.
        start_line: u32,
        /// Last line of the range.
        end_line: u32,
    },
    /// A folder.
    Folder {
        /// Display name.
        name: String,
        /// Full path.
        path: String,
    },
    /// An instruction file; it carries no path.
    Instructions {
        /// Display name.
        name: String,
    },
}

/// One element of an assistant response.
#[derive(Debug, Clone, PartialEq, Eq)]
pub enum ResponseElement {
    /// Plain text.
    Text(String),
    /// A reference to a file or symbol mentioned inline.
    InlineReference {
        /// Display name, when the export carries one.
        name: Option<String>,
        /// The referenced path; empty for symbol references.
        path: String,
    },
    /// The source marker of a code block; never rendered.
    CodeBlockUri {
        /// The path the code block belongs to.
        path: String,
    },
    /// A group of edits applied to one file.
    TextEditGroup {
        /// The edited path.
        path: String,
        /// The replacement text of each edit, in order.
        edits: Vec<String>,
    },
    /// A tool action the assistant performed.
    ToolInvocation {
        /// A past-tense description of the action, when the export
        /// carries one.
        past_tense: Option<String>,
    },
    /// Forward-compatibility fallback for unknown element shapes.
    Other,
}

/// Mathematical model of a [`Message`].
pub struct MessageView {
    pub text: Seq<char>,
}

/// Mathematical model of a [`ContextItem`].
pub enum ContextItemView {
    File { name: Seq<char>, path: Seq<char> },
    Selection { name: Seq<char>, path: Seq<char>, start_line: u32, end_line: u32 },
    Folder { name: Seq<char>, path: Seq<char> },
    Instructions { name: Seq<char> },
}

/// Mathematical model of a [`ResponseElement`].
pub enum ResponseElementView {
    Text(Seq<char>),
    InlineReference { name: Option<Seq<char>>, path: Seq<char> },
    CodeBlockUri { path: Seq<char> },
    TextEditGroup { path: Seq<char>, edits: Seq<Seq<char>> },
    ToolInvocation { past_tense: Option<Seq<char>> },
    Other,
}

/// Mathematical model of a [`Request`].
pub struct RequestView {
    pub timestamp: i64,
    pub model_id: Option<Seq<char>>,
    pub agent_name: Option<Seq<char>>,
    pub context: Seq<ContextItemView>,
    pub message: MessageView,
    pub response: Seq<ResponseElementView>,
}

/// Mathematical model of a [`ChatExport`].
pub struct ChatExportView {
    pub responder_username: Seq<char>,
    pub requests: Seq<RequestView>,
}

/// The view of an optional owned string.
pub open spec fn opt_view(o: Option<String>) -> Option<Seq<char>> {
    match o {
        Some(s) => Some(s@),
        None => None,
    }
}

impl View for Message {
    type V = MessageView;

    open spec fn view(&self) -> MessageView {
        (MessageView { text: self.text@ })
    }
}

impl View for ContextItem {
    type V = ContextItemView;

    open spec fn view(&self) -> ContextItemView {
        match *self {
            ContextItem::File { name, path } => (ContextItemView::File {
                name: name@,
                path: path@,
            }),
            ContextItem::Selection { name, path, start_line, end_line } => (
            ContextItemView::Selection {
                name: name@,
                path: path@,
                start_line,
                end_line,
            }),
            ContextItem::Folder { name, path } => (ContextItemView::Folder {
                name: name@,
                path: path@,
            }),
            ContextItem::Instructions { name } => (ContextItemView::Instructions { name: name@ }),
        }
    }
}

impl View for ResponseElement {
    type V = ResponseElementView;

    open spec fn view(&self) -> ResponseElementView {
        match *self {
            ResponseElement::Text(t) => ResponseElementView::Text(t@),
            ResponseElement::InlineReference { name, path } => (
            ResponseElementView::InlineReference { name: opt_view(name), path: path@ }),
            ResponseElement::CodeBlockUri { path } => (ResponseElementView::CodeBlockUri {
                path: path@,
            }),
            ResponseElement::TextEditGroup { path, edits } => (ResponseElementView::TextEditGroup {
                path: path@,
                edits: edits@.map_values(|e: String| e@),
            }),
            ResponseElement::ToolInvocation { past_tense } => (
            ResponseElementView::ToolInvocation { past_tense: opt_view(past_tense) }),
            ResponseElement::Other => ResponseElementView::Other,
        }
    }
}

impl View for Request {
    type V = RequestView;

    open spec fn view(&self) -> RequestView {
        (RequestView {
            timestamp: self.timestamp,
            model_id: opt_view(self.model_id),
            agent_name: opt_view(self.agent_name),
            context: self.context@.map_values(|c: ContextItem| c@),
            message: self.message@,
            response: self.response@.map_values(|e: ResponseElement| e@),
        })
    }
}

impl View for ChatExport {
    type V = ChatExportView;

    open spec fn view(&self) -> ChatExportView {
        (ChatExportView {
            responder_username: self.responder_username@,
            requests: self.requests@.map_values(|r: Request| r@),
        })
    }
}

/// The string, or empty when absent.
pub open spec fn str_or_empty(o: Option<Seq<char>>) -> Seq<char> {
    match o {
        Some(s) => s,
        None => Seq::empty(),
    }
}

/// The first of the two that is present, if either is.
pub open spec fn opt_or(a: Option<Seq<char>>, b: Option<Seq<char>>) -> Option<Seq<char>> {
    if a is Some {
        a
    } else {
        b
    }
}

/// A display name with its export-format prefix (`file:` or `prompt:`)
/// dropped.
pub open spec fn spec_clean_name(name: Seq<char>) -> Seq<char> {
    if spec_starts_with(name, "file:"@) {
        name.skip("file:"@.len() as int)
    } else if spec_starts_with(name, "prompt:"@) {
        name.skip("prompt:"@.len() as int)
    } else {
        name
    }
}

/// A `u64` taken to `u32` the way an `as` cast truncates.
pub open spec fn trunc_u32(x: u64) -> u32 {
    (x % 0x1_0000_0000) as u32
}

/// The line number field `k` of `range`, defaulting to `d`.
pub open spec fn spec_line_field(range: JsonValue, k: Seq<char>, d: u64) -> u64 {
    match spec_get(range, k) {
        Some(x) => match spec_as_u64(x) {
            Some(u) => u,
            None => d,
        },
        None => d,
    }
}

/// The context items one variable decodes to: one item for the known
/// kinds, none for the rest.
pub open spec fn spec_context_item(var: JsonValue) -> Seq<ContextItemView> {
    let kind = str_or_empty(spec_str(var, "kind"@));
    let name = spec_clean_name(str_or_empty(spec_str(var, "name"@)));
    let id = str_or_empty(spec_str(var, "id"@));
    if kind == "file"@ {
        let path = str_or_empty(
            opt_or(spec_str3(var, "value"@, "uri"@, "path"@), spec_str2(var, "value"@, "path"@)),
        );
        match spec_get2(var, "value"@, "range"@) {
            Some(range) => {
                let start = trunc_u32(spec_line_field(range, "startLineNumber"@, 1));
                let end = trunc_u32(spec_line_field(range, "endLineNumber"@, start as u64));
                if spec_contains_seq(id, "selection"@) || start != end || start > 1 {
                    seq![
                        (ContextItemView::Selection {
                            name,
                            path,
                            start_line: start,
                            end_line: end,
                        }),
                    ]
                } else {
                    seq![(ContextItemView::File { name, path })]
                }
            },
            None => seq![(ContextItemView::File { name, path })],
        }
    } else if kind == "promptFile"@ {
        seq![(ContextItemView::Instructions { name })]
    } else if kind == "folder"@ {
        seq![
            (ContextItemView::Folder {
                name,
                path: str_or_empty(spec_str2(var, "value"@, "path"@)),
            }),
        ]
    } else {
        Seq::empty()
    }
}

/// The context items of a sequence of variables, in order.
pub open spec fn spec_context_items(vars: Seq<JsonValue>) -> Seq<ContextItemView>
    decreases vars.len(),
{
    if vars.len() == 0 {
        Seq::empty()
    } else {
        spec_context_item(vars[0]) + spec_context_items(vars.drop_first())
    }
}

/// The context items of a request: read from `variableData.variables`,
/// absent or mistyped meaning none.
pub open spec fn spec_extract_context(v: JsonValue) -> Seq<ContextItemView> {
    match spec_get2(v, "variableData"@, "variables"@) {
        Some(JsonValue::Arr(vars)) => spec_context_items(vars@),
        _ => Seq::empty(),
    }
}

/// The edit texts found in one group.
pub open spec fn spec_edit_texts(es: Seq<JsonValue>) -> Seq<Seq<char>>
    decreases es.len(),
{
    if es.len() == 0 {
        Seq::empty()
    } else {
        (match spec_str(es[0], "text"@) {
            Some(t) => seq![t],
            None => Seq::empty(),
        }) + spec_edit_texts(es.drop_first())
    }
}

/// The edit texts found in a sequence of groups, both levels flattened.
pub open spec fn spec_edit_groups(gs: Seq<JsonValue>) -> Seq<Seq<char>>
    decreases gs.len(),
{
    if gs.len() == 0 {
        Seq::empty()
    } else {
        (match gs[0] {
            JsonValue::Arr(es) => spec_edit_texts(es@),
            _ => Seq::empty(),
        }) + spec_edit_groups(gs.drop_first())
    }
}

/// The edit texts of a `textEditGroup` element: the doubly nested `edits`
/// array flattened into one ordered sequence.
pub open spec fn spec_extract_edits(v: JsonValue) -> Seq<Seq<char>> {
    match spec_get(v, "edits"@) {
        Some(JsonValue::Arr(gs)) => spec_edit_groups(gs@),
        _ => Seq::empty(),
    }
}

/// Dispatch on the value of a present `kind` tag.  An unknown tag decodes
/// to the forward-compatibility fallback.
pub open spec fn spec_dispatch_kind(kind: Seq<char>, v: JsonValue) -> ResponseElementView {
    if kind == "inlineReference"@ {
        (ResponseElementView::InlineReference {
            name: opt_or(spec_str(v, "name"@), spec_str2(v, "inlineReference"@, "name"@)),
            path: str_or_empty(spec_str2(v, "inlineReference"@, "path"@)),
        })
    } else if kind == "codeblockUri"@ {
        (ResponseElementView::CodeBlockUri { path: str_or_empty(spec_str2(v, "uri"@, "path"@)) })
    } else if kind == "textEditGroup"@ {
        (ResponseElementView::TextEditGroup {
            path: str_or_empty(spec_str2(v, "uri"@, "path"@)),
            edits: spec_extract_edits(v),
        })
    } else if kind == "toolInvocationSerialized"@ {
        (ResponseElementView::ToolInvocation {
            past_tense: spec_str2(v, "pastTenseMessage"@, "value"@),
        })
    } else {
        ResponseElementView::Other
    }
}

/// One response element.  A present `kind` tag always decides; only
/// without one does a plain `value` string decode as text.
pub open spec fn spec_decode_element(v: JsonValue) -> ResponseElementView {
    match spec_str(v, "kind"@) {
        Some(kind) => spec_dispatch_kind(kind, v),
        None => match spec_str(v, "value"@) {
            Some(t) => ResponseElementView::Text(t),
            None => ResponseElementView::Other,
        },
    }
}

/// The elements of a response array, in order.
pub open spec fn spec_decode_elements(es: Seq<JsonValue>) -> Seq<ResponseElementView>
    decreases es.len(),
{
    if es.len() == 0 {
        Seq::empty()
    } else {
        seq![spec_decode_element(es[0])] + spec_decode_elements(es.drop_first())
    }
}

/// One request.  Every field degrades to a default: this decode never
/// fails.
pub open spec fn spec_decode_request(v: JsonValue) -> RequestView {
    (RequestView {
        timestamp: match spec_get(v, "timestamp"@) {
            Some(t) => match spec_as_i64(t) {
                Some(i) => i,
                None => 0,
            },
            None => 0,
        },
        model_id: spec_str(v, "modelId"@),
        agent_name: spec_str2(v, "agent"@, "name"@),
        context: spec_extract_context(v),
        message: (MessageView { text: str_or_empty(spec_str2(v, "message"@, "text"@)) }),
        response: match spec_get(v, "response"@) {
            Some(JsonValue::Arr(es)) => spec_decode_elements(es@),
            _ => Seq::empty(),
        },
    })
}

/// The requests of a root value, in order.
pub open spec fn spec_decode_requests(rs: Seq<JsonValue>) -> Seq<RequestView>
    decreases rs.len(),
{
    if rs.len() == 0 {
        Seq::empty()
    } else {
        seq![spec_decode_request(rs[0])] + spec_decode_requests(rs.drop_first())
    }
}

/// The decode of a whole document: the root must be an object with a
/// `responderUsername` string and a `requests` array; everything below
/// that is tolerant.
pub open spec fn spec_decode_export(v: JsonValue) -> Option<ChatExportView> {
    match (spec_get(v, "responderUsername"@), spec_get(v, "requests"@)) {
        (Some(JsonValue::Str(name)), Some(JsonValue::Arr(rs))) => Some(
            (ChatExportView { responder_username: name@, requests: spec_decode_requests(rs@) }),
        ),
        _ => None,
    }
}

/// The decode of a text: `None` when the text is not well-formed JSON or
/// its root lacks the required fields.
pub open spec fn spec_parse_chat(s: Seq<char>) -> Option<ChatExportView> {
    match parsed_json(s) {
        Some(v) => spec_decode_export(v),
        None => None,
    }
}


/// A display name with its export-format prefix (`file:` or `prompt:`)
/// dropped, as an owned string.
pub fn clean_context_name(name: &Vec<char>) -> (r: String)
    ensures
        r@ == spec_clean_name(name@),
{
    if starts_with_str(name, "file:") {
        let m = "file:".unicode_len();
        let tail = copy_range(name, m, name.len());
        proof {
            assert(tail@ =~= name@.skip("file:"@.len() as int));
        }
        chars_to_string(&tail)
    } else if starts_with_str(name, "prompt:") {
        let m = "prompt:".unicode_len();
        let tail = copy_range(name, m, name.len());
        proof {
            assert(tail@ =~= name@.skip("prompt:"@.len() as int));
        }
        chars_to_string(&tail)
    } else {
        chars_to_string(name)
    }
}

/// A `u64` taken to `u32` the way the export's line numbers are read.
fn to_u32(x: u64) -> (r: u32)
    ensures
        r == trunc_u32(x),
{
    (x % 0x1_0000_0000) as u32
}

/// The line number field `k` of `range`, defaulting to `d`.
fn u64_field_or(range: &JsonValue, k: &str, d: u64) -> (r: u64)
    ensures
        r == spec_line_field(*range, k@, d),
{
    match range.get(k) {
        Some(x) => match x {
            JsonValue::Int(i) => if *i >= 0 {
                *i as u64
            } else {
                d
            },
            JsonValue::UInt(u) => *u,
            _ => d,
        },
        None => d,
    }
}

/// Decodes one variable of the context array; `None` for the kinds that
/// carry nothing renderable.
pub fn decode_context_var(var: &JsonValue) -> (r: Option<ContextItem>)
    ensures
        match r {
            Some(c) => spec_context_item(*var) == seq![c@],
            None => spec_context_item(*var) == Seq::<ContextItemView>::empty(),
        },
{
    let name = match get_str1(var, "name") {
        Some(n) => clean_context_name(n),
        None => {
            let empty: Vec<char> = Vec::new();
            clean_context_name(&empty)
        },
    };
    let kind = match get_str1(var, "kind") {
        Some(k) => k,
        None => {
            proof {
                reveal_strlit("file");
                reveal_strlit("promptFile");
                reveal_strlit("folder");
                assert("file"@.len() == 4 && "promptFile"@.len() == 10 && "folder"@.len() == 6);
                assert(Seq::<char>::empty().len() == 0);
            }
            return None;
        },
    };
    if chars_eq_str(kind, "file") {
        let path = match get_str3(var, "value", "uri", "path") {
            Some(p) => chars_to_string(p),
            None => match get_str2(var, "value", "path") {
                Some(p) => chars_to_string(p),
                None => String::new(),
            },
        };
        match get2(var, "value", "range") {
            Some(range) => {
                let start = to_u32(u64_field_or(range, "startLineNumber", 1));
                let end = to_u32(u64_field_or(range, "endLineNumber", start as u64));
                let is_selection = match get_str1(var, "id") {
                    Some(id) => contains_str(id, "selection"),
                    None => {
                        let empty: Vec<char> = Vec::new();
                        contains_str(&empty, "selection")
                    },
                };
                if is_selection || start != end || start > 1 {
                    Some(
                        ContextItem::Selection { name, path, start_line: start, end_line: end },
                    )
                } else {
                    Some(ContextItem::File { name, path })
                }
            },
            None => Some(ContextItem::File { name, path }),
        }
    } else if chars_eq_str(kind, "promptFile") {
        Some(ContextItem::Instructions { name })
    } else if chars_eq_str(kind, "folder") {
        let path = match get_str2(var, "value", "path") {
            Some(p) => chars_to_string(p),
            None => String::new(),
        };
        Some(ContextItem::Folder { name, path })
    } else {
        None
    }
}

/// Extracts the context items of a request from its
/// `variableData.variables` array.
pub fn extract_context(v: &JsonValue) -> (r: Vec<ContextItem>)
    ensures
        r@.map_values(|c: ContextItem| c@) == spec_extract_context(*v),
{
    let mut items: Vec<ContextItem> = Vec::new();
    match get2(v, "variableData", "variables") {
        Some(JsonValue::Arr(vars)) => {
            let ghost all = vars@;
            let mut i: usize = 0;
            proof {
                assert(all.skip(0) =~= all);
                assert(items@.map_values(|c: ContextItem| c@) + spec_context_items(all)
                    =~= spec_context_items(all));
            }
            while i < vars.len()
                invariant
                    i <= vars.len(),
                    all == vars@,
                    spec_extract_context(*v) == spec_context_items(all),
                    spec_context_items(all) == items@.map_values(|c: ContextItem| c@)
                        + spec_context_items(all.skip(i as int)),
                decreases vars.len() - i,
            {
                let ghost pre = items@;
                proof {
                    assert(all.skip(i as int)[0] == all[i as int]);
                    assert(all.skip(i as int).drop_first() =~= all.skip(i + 1));
                }
                match decode_context_var(&vars[i]) {
                    Some(c) => {
                        proof {
                            assert(pre.push(c).map_values(|x: ContextItem| x@) =~= pre.map_values(
                                |x: ContextItem| x@,
                            ).push(c@));
                            assert(pre.map_values(|x: ContextItem| x@) + (seq![c@]
                                + spec_context_items(all.skip(i + 1))) =~= pre.map_values(
                                |x: ContextItem| x@,
                            ).push(c@) + spec_context_items(all.skip(i + 1)));
                        }
                        items.push(c);
                    },
                    None => {
                        proof {
                            assert(pre.map_values(|x: ContextItem| x@) + (
                            Seq::<ContextItemView>::empty() + spec_context_items(all.skip(i + 1)))
                                =~= pre.map_values(|x: ContextItem| x@) + spec_context_items(
                                all.skip(i + 1),
                            ));
                        }
                    },
                }
                i += 1;
            }
            proof {
                assert(all.skip(i as int) =~= Seq::<JsonValue>::empty());
                assert(items@.map_values(|c: ContextItem| c@) + Seq::<ContextItemView>::empty()
                    =~= items@.map_values(|c: ContextItem| c@));
            }
        },
        _ => {
            proof {
                assert(items@.map_values(|c: ContextItem| c@)
                    =~= Seq::<ContextItemView>::empty());
            }
        },
    }
    items
}

/// Flattens the doubly nested `edits` array of a `textEditGroup` element
/// into the ordered sequence of its edit texts.
pub fn extract_edits(v: &JsonValue) -> (r: Vec<String>)
    ensures
        r@.map_values(|s: String| s@) == spec_extract_edits(*v),
{
    let mut out: Vec<String> = Vec::new();
    match v.get("edits") {
        Some(JsonValue::Arr(groups)) => {
            let ghost gs = groups@;
            let mut g: usize = 0;
            proof {
                assert(gs.skip(0) =~= gs);
                assert(out@.map_values(|s: String| s@) + spec_edit_groups(gs) =~= spec_edit_groups(
                    gs,
                ));
            }
            while g < groups.len()
                invariant
                    g <= groups.len(),
                    gs == groups@,
                    spec_extract_edits(*v) == spec_edit_groups(gs),
                    spec_edit_groups(gs) == out@.map_values(|s: String| s@) + spec_edit_groups(
                        gs.skip(g as int),
                    ),
                decreases groups.len() - g,
            {
                proof {
                    assert(gs.skip(g as int)[0] == gs[g as int]);
                    assert(gs.skip(g as int).drop_first() =~= gs.skip(g + 1));
                }
                match &groups[g] {
                    JsonValue::Arr(es) => {
                        let ghost all = es@;
                        let mut e: usize = 0;
                        proof {
                            assert(all.skip(0) =~= all);
                        }
                        while e < es.len()
                            invariant
                                e <= es.len(),
                                all == es@,
                                spec_edit_groups(gs) == out@.map_values(|s: String| s@)
                                    + spec_edit_texts(all.skip(e as int)) + spec_edit_groups(
                                    gs.skip(g + 1),
                                ),
                            decreases es.len() - e,
                        {
                            let ghost pre = out@;
                            proof {
                                assert(all.skip(e as int)[0] == all[e as int]);
                                assert(all.skip(e as int).drop_first() =~= all.skip(e + 1));
                            }
                            match get_str1(&es[e], "text") {
                                Some(t) => {
                                    let owned = chars_to_string(t);
                                    proof {
                                        assert(pre.push(owned).map_values(|s: String| s@)
                                            =~= pre.map_values(|s: String| s@).push(owned@));
                                        assert(pre.map_values(|s: String| s@) + (seq![owned@]
                                            + spec_edit_texts(all.skip(e + 1))) + spec_edit_groups(
                                            gs.skip(g + 1),
                                        ) =~= pre.map_values(|s: String| s@).push(owned@)
                                            + spec_edit_texts(all.skip(e + 1)) + spec_edit_groups(
                                            gs.skip(g + 1),
                                        ));
                                    }
                                    out.push(owned);
                                },
                                None => {
                                    proof {
                                        assert(pre.map_values(|s: String| s@) + (
                                        Seq::<Seq<char>>::empty() + spec_edit_texts(
                                            all.skip(e + 1),
                                        )) + spec_edit_groups(gs.skip(g + 1)) =~= pre.map_values(
                                            |s: String| s@,
                                        ) + spec_edit_texts(all.skip(e + 1)) + spec_edit_groups(
                                            gs.skip(g + 1),
                                        ));
                                    }
                                },
                            }
                            e += 1;
                        }
                        proof {
                            assert(all.skip(e as int) =~= Seq::<JsonValue>::empty());
                            assert(out@.map_values(|s: String| s@) + Seq::<Seq<char>>::empty()
                                + spec_edit_groups(gs.skip(g + 1)) =~= out@.map_values(
                                |s: String| s@,
                            ) + spec_edit_groups(gs.skip(g + 1)));
                        }
                    },
                    _ => {
                        proof {
                            assert(out@.map_values(|s: String| s@) + (Seq::<Seq<char>>::empty()
                                + spec_edit_groups(gs.skip(g + 1))) =~= out@.map_values(
                                |s: String| s@,
                            ) + spec_edit_groups(gs.skip(g + 1)));
                        }
                    },
                }
                g += 1;
            }
            proof {
                assert(gs.skip(g as int) =~= Seq::<JsonValue>::empty());
                assert(out@.map_values(|s: String| s@) + Seq::<Seq<char>>::empty()
                    =~= out@.map_values(|s: String| s@));
            }
        },
        _ => {
            proof {
                assert(out@.map_values(|s: String| s@) =~= Seq::<Seq<char>>::empty());
            }
        },
    }
    out
}

/// Decodes one response element.
pub fn decode_element(v: &JsonValue) -> (r: ResponseElement)
    ensures
        r@ == spec_decode_element(*v),
{
    match get_str1(v, "kind") {
        Some(kind) => {
            if chars_eq_str(kind, "inlineReference") {
                let name = match get_str1(v, "name") {
                    Some(n) => Some(chars_to_string(n)),
                    None => match get_str2(v, "inlineReference", "name") {
                        Some(n) => Some(chars_to_string(n)),
                        None => None,
                    },
                };
                let path = match get_str2(v, "inlineReference", "path") {
                    Some(p) => chars_to_string(p),
                    None => String::new(),
                };
                ResponseElement::InlineReference { name, path }
            } else if chars_eq_str(kind, "codeblockUri") {
                let path = match get_str2(v, "uri", "path") {
                    Some(p) => chars_to_string(p),
                    None => String::new(),
                };
                ResponseElement::CodeBlockUri { path }
            } else if chars_eq_str(kind, "textEditGroup") {
                let path = match get_str2(v, "uri", "path") {
                    Some(p) => chars_to_string(p),
                    None => String::new(),
                };
                let edits = extract_edits(v);
                ResponseElement::TextEditGroup { path, edits }
            } else if chars_eq_str(kind, "toolInvocationSerialized") {
                let past_tense = match get_str2(v, "pastTenseMessage", "value") {
                    Some(m) => Some(chars_to_string(m)),
                    None => None,
                };
                ResponseElement::ToolInvocation { past_tense }
            } else {
                ResponseElement::Other
            }
        },
        None => match get_str1(v, "value") {
            Some(t) => ResponseElement::Text(chars_to_string(t)),
            None => ResponseElement::Other,
        },
    }
}

/// Decodes every element of a response array, in order.
pub fn decode_elements(es: &Vec<JsonValue>) -> (r: Vec<ResponseElement>)
    ensures
        r@.map_values(|e: ResponseElement| e@) == spec_decode_elements(es@),
{
    let ghost all = es@;
    let mut out: Vec<ResponseElement> = Vec::new();
    let mut i: usize = 0;
    proof {
        assert(all.skip(0) =~= all);
        assert(out@.map_values(|e: ResponseElement| e@) + spec_decode_elements(all)
            =~= spec_decode_elements(all));
    }
    while i < es.len()
        invariant
            i <= es.len(),
            all == es@,
            spec_decode_elements(all) == out@.map_values(|e: ResponseElement| e@)
                + spec_decode_elements(all.skip(i as int)),
        decreases es.len() - i,
    {
        let ghost pre = out@;
        proof {
            assert(all.skip(i as int)[0] == all[i as int]);
            assert(all.skip(i as int).drop_first() =~= all.skip(i + 1));
        }
        let d = decode_element(&es[i]);
        proof {
            assert(pre.push(d).map_values(|e: ResponseElement| e@) =~= pre.map_values(
                |e: ResponseElement| e@,
            ).push(d@));
            assert(pre.map_values(|e: ResponseElement| e@) + (seq![d@] + spec_decode_elements(
                all.skip(i + 1),
            )) =~= pre.map_values(|e: ResponseElement| e@).push(d@) + spec_decode_elements(
                all.skip(i + 1),
            ));
        }
        out.push(d);
        i += 1;
    }
    proof {
        assert(all.skip(i as int) =~= Seq::<JsonValue>::empty());
        assert(out@.map_values(|e: ResponseElement| e@) + Seq::<ResponseElementView>::empty()
            =~= out@.map_values(|e: ResponseElement| e@));
    }
    out
}

/// Decodes one request.  Never fails: every field has a default.
pub fn decode_request(v: &JsonValue) -> (r: Request)
    ensures
        r@ == spec_decode_request(*v),
{
    let timestamp = match v.get("timestamp") {
        Some(t) => match t {
            JsonValue::Int(i) => *i,
            _ => 0,
        },
        None => 0,
    };
    let model_id = match get_str1(v, "modelId") {
        Some(s) => Some(chars_to_string(s)),
        None => None,
    };
    let agent_name = match get_str2(v, "agent", "name") {
        Some(s) => Some(chars_to_string(s)),
        None => None,
    };
    let text = match get_str2(v, "message", "text") {
        Some(t) => chars_to_string(t),
        None => String::new(),
    };
    let context = extract_context(v);
    let response = match v.get("response") {
        Some(JsonValue::Arr(es)) => decode_elements(es),
        _ => {
            let empty: Vec<ResponseElement> = Vec::new();
            proof {
                assert(empty@.map_values(|e: ResponseElement| e@)
                    =~= Seq::<ResponseElementView>::empty());
            }
            empty
        },
    };
    Request { timestamp, model_id, agent_name, context, message: Message { text }, response }
}

/// Decodes the root value of a document.  `None` when the root lacks the
/// `responderUsername` string or the `requests` array.
pub fn decode_export(v: &JsonValue) -> (r: Option<ChatExport>)
    ensures
        match r {
            Some(chat) => spec_decode_export(*v) == Some(chat@),
            None => spec_decode_export(*v) is None,
        },
{
    let responder_username = match get_str1(v, "responderUsername") {
        Some(n) => chars_to_string(n),
        None => {
            return None;
        },
    };
    match v.get("requests") {
        Some(JsonValue::Arr(rs)) => {
            let ghost all = rs@;
            let mut requests: Vec<Request> = Vec::new();
            let mut i: usize = 0;
            proof {
                assert(all.skip(0) =~= all);
                assert(requests@.map_values(|x: Request| x@) + spec_decode_requests(all)
                    =~= spec_decode_requests(all));
            }
            while i < rs.len()
                invariant
                    i <= rs.len(),
                    all == rs@,
                    spec_decode_requests(all) == requests@.map_values(|x: Request| x@)
                        + spec_decode_requests(all.skip(i as int)),
                decreases rs.len() - i,
            {
                let ghost pre = requests@;
                proof {
                    assert(all.skip(i as int)[0] == all[i as int]);
                    assert(all.skip(i as int).drop_first() =~= all.skip(i + 1));
                }
                let d = decode_request(&rs[i]);
                proof {
                    assert(pre.push(d).map_values(|x: Request| x@) =~= pre.map_values(
                        |x: Request| x@,
                    ).push(d@));
                    assert(pre.map_values(|x: Request| x@) + (seq![d@] + spec_decode_requests(
                        all.skip(i + 1),
                    )) =~= pre.map_values(|x: Request| x@).push(d@) + spec_decode_requests(
                        all.skip(i + 1),
                    ));
                }
                requests.push(d);
                i += 1;
            }
            proof {
                assert(all.skip(i as int) =~= Seq::<JsonValue>::empty());
                assert(requests@.map_values(|x: Request| x@) + Seq::<RequestView>::empty()
                    =~= requests@.map_values(|x: Request| x@));
            }
            Some(ChatExport { responder_username, requests })
        },
        _ => None,
    }
}

/// Parses a JSON text into a [`ChatExport`].
///
/// Fails exactly when the text is not well-formed JSON or its root lacks
/// the required fields; every nested field of a well-formed document
/// degrades to a default instead.
pub fn parse_chat(json_str: &str) -> (r: Result<ChatExport, ParseError>)
    ensures
        r is Ok <==> spec_parse_chat(json_str@) is Some,
        (match r {
            Ok(chat) => spec_parse_chat(json_str@) == Some(chat@),
            Err(_) => true,
        }),
{
    match parse_json(json_str) {
        Ok(v) => match decode_export(&v) {
            Some(chat) => Ok(chat),
            None => Err(ParseError::Json { source: root_shape_error() }),
        },
        Err(e) => Err(ParseError::Json { source: e }),
    }
}

/// Law: a root object with a responder name string and an empty request
/// array always decodes, to an empty exchange sequence, whatever other
/// fields the object holds.
pub proof fn lemma_decode_minimal_root(v: JsonValue, name: Vec<char>, rs: Vec<JsonValue>)
    requires
        spec_get(v, "responderUsername"@) == Some(JsonValue::Str(name)),
        spec_get(v, "requests"@) == Some(JsonValue::Arr(rs)),
        rs@.len() == 0,
    ensures
        spec_decode_export(v) matches Some(c) && c.responder_username == name@
            && c.requests.len() == 0,
{
}

/// Law: a root without a `responderUsername` string or without a
/// `requests` array never decodes.
pub proof fn lemma_decode_requires_root_fields(v: JsonValue)
    requires
        !(spec_get(v, "responderUsername"@) matches Some(w) && w is Str) || !(spec_get(
            v,
            "requests"@,
        ) matches Some(w) && w is Arr),
    ensures
        spec_decode_export(v) is None,
{
}

/// Law: with a `kind` tag present, decoding honors the tag dispatch and
/// never falls back to reading a `value` field as text, whatever the tag
/// says and whatever `value` holds.
pub proof fn lemma_kind_tag_priority(v: JsonValue, kind: Seq<char>)
    requires
        spec_str(v, "kind"@) == Some(kind),
    ensures
        spec_decode_element(v) == spec_dispatch_kind(kind, v),
        !(spec_decode_element(v) is Text),
{
}

} // verus!
