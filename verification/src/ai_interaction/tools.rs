//! Tools that a model may call, the data they keep, and what they answer.

use crate::database::context::{ContextData, ContextDataView, ContextPart, ContextPartView, ContextPosition};
use crate::database::configuration::{setting_views, ChatSetting, ChatSettingView};
use crate::database::context::{data_views, ContextPartView as PartView, WholeContext};
use crate::database::ids::{shift_id, shifted};
use crate::python::{format_python_output, python_output};
use crate::text::{
    chars_of, find_text, first_match, string_of, contains_char, debug_quoted, debug_text, decimal, decimal_text, first_index_of, join,
    join_from, parse_count, parse_count_text, same_text, split, split_text, text_views, trim,
    trim_char, trim_char_text, trim_text, trimmed_lines, trimmed_lines_of, words, words_of,
};
use vstd::prelude::*;

verus! {

/// The kinds of tool.
#[derive(Clone, Copy, PartialEq, Eq, Structural, Hash, Debug)]
pub enum ProximaTool {
    LocalMemory,
    Calculator,
    Web,
    Python,
    Agent,
}

/// The tool that `name` calls, surrounding whitespace aside.
pub open spec fn tool_named(name: Seq<char>) -> Option<ProximaTool> {
    let t = trim(name);
    if t == "Local Memory"@ {
        Some(ProximaTool::LocalMemory)
    } else if t == "Calculator"@ {
        Some(ProximaTool::Calculator)
    } else if t == "Web"@ {
        Some(ProximaTool::Web)
    } else if t == "Python"@ {
        Some(ProximaTool::Python)
    } else if t == "Agent"@ {
        Some(ProximaTool::Agent)
    } else {
        None
    }
}

/// Whether `action`, surrounding whitespace aside, is an action of `tool`.
pub open spec fn valid_action(tool: ProximaTool, action: Seq<char>) -> bool {
    let a = trim(action);
    match tool {
        ProximaTool::LocalMemory => a == "add"@ || a == "update"@ || a == "remove"@,
        ProximaTool::Calculator => a == "compute"@ || a == "check"@,
        ProximaTool::Web => a == "search"@ || a == "open"@,
        ProximaTool::Python => a == "run"@ || a == "eval"@,
        ProximaTool::Agent => a == "run"@ || a == "respond"@,
    }
}

/// What a model is told about a tool.
pub open spec fn tool_description(tool: ProximaTool) -> Seq<char> {
    match tool {
        ProximaTool::LocalMemory => "\n<Tool>\nName: Local Memory\nActions: add, update, remove\nA key-value memory that stays for the whole chat. For add and update, the first input line is the key and the following lines are the value. For remove, the only input line is the key.\n</Tool>"@,
        ProximaTool::Calculator => "\n<Tool>\nName: Calculator\nActions: compute, check\nFor compute, each input line is an arithmetic expression, answered as 'expression = value'. For check, each input line holds two expressions around one of <, > or =, answered as 'line -> TRUE' or 'line -> FALSE'.\n</Tool>"@,
        ProximaTool::Web => "\n<Tool>\nName: Web\nActions: search, open\nFor search, each input line is a number of results, at most 20, followed by the query. For open, each input line is the address of a page to read.\n</Tool>"@,
        ProximaTool::Python => "\n<Tool>\nName: Python\nActions: run, eval\nFor run, the input is a whole program. For eval, the input is one expression. What the program prints is answered.\n</Tool>"@,
        ProximaTool::Agent => "\n<Tool>\nName: Agent\nActions: run, respond\nFor run, the input lines are the agent's name, its model, its tools separated by commas, then the prompt. For respond, the first input line is the name of an agent that exists and the following lines are the message to it.\n</Tool>"@,
    }
}

/// The name the tool is shown under.
pub open spec fn tool_shown_name(tool: ProximaTool) -> Seq<char> {
    match tool {
        ProximaTool::Calculator => "Calculator"@,
        ProximaTool::LocalMemory => "Local memory"@,
        ProximaTool::Web => "Web"@,
        ProximaTool::Python => "Python"@,
        ProximaTool::Agent => "Agent"@,
    }
}

impl ProximaTool {
    /// Whether the tool keeps data that the model is shown after each turn.
    pub fn must_insert_data(&self) -> (r: bool)
        ensures
            r == (*self == ProximaTool::LocalMemory || *self == ProximaTool::Agent),
    {
        match self {
            ProximaTool::LocalMemory => true,
            ProximaTool::Calculator => false,
            ProximaTool::Web => false,
            ProximaTool::Python => false,
            ProximaTool::Agent => true,
        }
    }

    /// Whether `action` is one of the tool's actions.
    pub fn is_valid_action(&self, action: &String) -> (r: bool)
        ensures
            r == valid_action(*self, action@),
    {
        let a = trim_text(action.as_str());
        let a = a.as_str();
        match self {
            ProximaTool::LocalMemory => same_text(a, "add") || same_text(a, "update") || same_text(
                a,
                "remove",
            ),
            ProximaTool::Calculator => same_text(a, "compute") || same_text(a, "check"),
            ProximaTool::Web => same_text(a, "search") || same_text(a, "open"),
            ProximaTool::Python => same_text(a, "run") || same_text(a, "eval"),
            ProximaTool::Agent => same_text(a, "run") || same_text(a, "respond"),
        }
    }

    /// The tool that `string` names, if any.
    pub fn try_from_string(string: String) -> (r: Option<ProximaTool>)
        ensures
            r == tool_named(string@),
    {
        let t = trim_text(string.as_str());
        let t = t.as_str();
        if same_text(t, "Local Memory") {
            Some(ProximaTool::LocalMemory)
        } else if same_text(t, "Calculator") {
            Some(ProximaTool::Calculator)
        } else if same_text(t, "Web") {
            Some(ProximaTool::Web)
        } else if same_text(t, "Python") {
            Some(ProximaTool::Python)
        } else if same_text(t, "Agent") {
            Some(ProximaTool::Agent)
        } else {
            None
        }
    }

    /// What a model is told about the tool.
    pub fn get_description_string(&self) -> (r: String)
        ensures
            r@ == tool_description(*self),
    {
        match self {
            ProximaTool::LocalMemory => "\n<Tool>\nName: Local Memory\nActions: add, update, remove\nA key-value memory that stays for the whole chat. For add and update, the first input line is the key and the following lines are the value. For remove, the only input line is the key.\n</Tool>".to_string(),
            ProximaTool::Calculator => "\n<Tool>\nName: Calculator\nActions: compute, check\nFor compute, each input line is an arithmetic expression, answered as 'expression = value'. For check, each input line holds two expressions around one of <, > or =, answered as 'line -> TRUE' or 'line -> FALSE'.\n</Tool>".to_string(),
            ProximaTool::Web => "\n<Tool>\nName: Web\nActions: search, open\nFor search, each input line is a number of results, at most 20, followed by the query. For open, each input line is the address of a page to read.\n</Tool>".to_string(),
            ProximaTool::Python => "\n<Tool>\nName: Python\nActions: run, eval\nFor run, the input is a whole program. For eval, the input is one expression. What the program prints is answered.\n</Tool>".to_string(),
            ProximaTool::Agent => "\n<Tool>\nName: Agent\nActions: run, respond\nFor run, the input lines are the agent's name, its model, its tools separated by commas, then the prompt. For respond, the first input line is the name of an agent that exists and the following lines are the message to it.\n</Tool>".to_string(),
        }
    }

    /// The name the tool is shown under.
    pub fn get_name(&self) -> (r: String)
        ensures
            r@ == tool_shown_name(*self),
    {
        match self {
            ProximaTool::Calculator => "Calculator".to_string(),
            ProximaTool::LocalMemory => "Local memory".to_string(),
            ProximaTool::Web => "Web".to_string(),
            ProximaTool::Python => "Python".to_string(),
            ProximaTool::Agent => "Agent".to_string(),
        }
    }
}

/// Why the text of a call could not be used.
#[derive(PartialEq, Eq, Debug)]
#[allow(inconsistent_fields)]
pub enum ToolParsingError {
    BadElementName { expected: String, found: String },
    BadNumberOfArguments { expected: usize, found: usize, remarks: String },
    NotAnElement,
    IncorrectExpression { expression: String, issue: String },
}

/// The mathematical value of a [`ToolParsingError`].
#[allow(inconsistent_fields)]
pub enum ToolParsingErrorView {
    BadElementName { expected: Seq<char>, found: Seq<char> },
    BadNumberOfArguments { expected: usize, found: usize, remarks: Seq<char> },
    NotAnElement,
    IncorrectExpression { expression: Seq<char>, issue: Seq<char> },
}

impl View for ToolParsingError {
    type V = ToolParsingErrorView;

    open spec fn view(&self) -> ToolParsingErrorView {
        match self {
            ToolParsingError::BadElementName { expected, found } => {
                ToolParsingErrorView::BadElementName { expected: expected@, found: found@ }
            },
            ToolParsingError::BadNumberOfArguments { expected, found, remarks } => {
                ToolParsingErrorView::BadNumberOfArguments {
                    expected: *expected,
                    found: *found,
                    remarks: remarks@,
                }
            },
            ToolParsingError::NotAnElement => ToolParsingErrorView::NotAnElement,
            ToolParsingError::IncorrectExpression { expression, issue } => {
                ToolParsingErrorView::IncorrectExpression { expression: expression@, issue: issue@ }
            },
        }
    }
}

impl Clone for ToolParsingError {
    fn clone(&self) -> (r: Self)
        ensures
            r@ == self@,
    {
        match self {
            ToolParsingError::BadElementName { expected, found } => {
                ToolParsingError::BadElementName { expected: expected.clone(), found: found.clone() }
            },
            ToolParsingError::BadNumberOfArguments { expected, found, remarks } => {
                ToolParsingError::BadNumberOfArguments {
                    expected: *expected,
                    found: *found,
                    remarks: remarks.clone(),
                }
            },
            ToolParsingError::NotAnElement => ToolParsingError::NotAnElement,
            ToolParsingError::IncorrectExpression { expression, issue } => {
                ToolParsingError::IncorrectExpression {
                    expression: expression.clone(),
                    issue: issue.clone(),
                }
            },
        }
    }
}

/// Why a call of a tool failed.
#[derive(PartialEq, Eq, Debug)]
pub enum ProximaToolCallError {
    Parsing(ToolParsingError),
    WebError(String),
    Network(String),
}

/// The mathematical value of a [`ProximaToolCallError`].
pub enum ProximaToolCallErrorView {
    Parsing(ToolParsingErrorView),
    WebError(Seq<char>),
    Network(Seq<char>),
}

impl View for ProximaToolCallError {
    type V = ProximaToolCallErrorView;

    open spec fn view(&self) -> ProximaToolCallErrorView {
        match self {
            ProximaToolCallError::Parsing(error) => ProximaToolCallErrorView::Parsing(error@),
            ProximaToolCallError::WebError(text) => ProximaToolCallErrorView::WebError(text@),
            ProximaToolCallError::Network(text) => ProximaToolCallErrorView::Network(text@),
        }
    }
}

impl Clone for ProximaToolCallError {
    fn clone(&self) -> (r: Self)
        ensures
            r@ == self@,
    {
        match self {
            ProximaToolCallError::Parsing(error) => ProximaToolCallError::Parsing(error.clone()),
            ProximaToolCallError::WebError(text) => ProximaToolCallError::WebError(text.clone()),
            ProximaToolCallError::Network(text) => ProximaToolCallError::Network(text.clone()),
        }
    }
}

/// How a parsing error is written out in an error output.
pub open spec fn parsing_error_text(error: ToolParsingErrorView) -> Seq<char> {
    match error {
        ToolParsingErrorView::BadElementName { expected, found } => "BadElementName { expected: "@
            + debug_quoted(expected) + ", found: "@ + debug_quoted(found) + " }"@,
        ToolParsingErrorView::BadNumberOfArguments { expected, found, remarks } =>
            "BadNumberOfArguments { expected: "@ + decimal(expected as nat) + ", found: "@
                + decimal(found as nat) + ", remarks: "@ + debug_quoted(remarks) + " }"@,
        ToolParsingErrorView::NotAnElement => "NotAnElement"@,
        ToolParsingErrorView::IncorrectExpression { expression, issue } =>
            "IncorrectExpression { expression: "@ + debug_quoted(expression) + ", issue: "@
                + debug_quoted(issue) + " }"@,
    }
}

/// How an error is written out in an error output.
pub open spec fn call_error_text(error: ProximaToolCallErrorView) -> Seq<char> {
    match error {
        ProximaToolCallErrorView::Parsing(inner) => "Parsing("@ + parsing_error_text(inner) + ")"@,
        ProximaToolCallErrorView::WebError(text) => "WebError("@ + debug_quoted(text) + ")"@,
        ProximaToolCallErrorView::Network(text) => "Network("@ + debug_quoted(text) + ")"@,
    }
}

/// The text of the error output for a call of `tool` with `action`.
pub open spec fn error_output_text(
    error: ProximaToolCallErrorView,
    tool: Seq<char>,
    action: Seq<char>,
) -> Seq<char> {
    "<error><tool>"@ + tool + "</tool><action>"@ + action + "</action><error_data>"@
        + call_error_text(error) + "</error_data></error>"@
}

/// The text of the output of a call of `tool` with `action`.
pub open spec fn call_output_text(tool: Seq<char>, action: Seq<char>, output_data: Seq<char>) -> Seq<
    char,
> {
    "<output><tool>"@ + tool + "</tool><action>"@ + action + "</action><output_data>"@
        + output_data + "</output_data></output>"@
}

impl ToolParsingError {
    /// The error written out as text.
    pub fn to_text(&self) -> (r: String)
        ensures
            r@ == parsing_error_text(self@),
    {
        match self {
            ToolParsingError::BadElementName { expected, found } => {
                "BadElementName { expected: ".to_string().concat(
                    debug_text(expected.as_str()).as_str(),
                ).concat(", found: ").concat(debug_text(found.as_str()).as_str()).concat(" }")
            },
            ToolParsingError::BadNumberOfArguments { expected, found, remarks } => {
                "BadNumberOfArguments { expected: ".to_string().concat(
                    decimal_text(*expected as u64).as_str(),
                ).concat(", found: ").concat(decimal_text(*found as u64).as_str()).concat(
                    ", remarks: ",
                ).concat(debug_text(remarks.as_str()).as_str()).concat(" }")
            },
            ToolParsingError::NotAnElement => "NotAnElement".to_string(),
            ToolParsingError::IncorrectExpression { expression, issue } => {
                "IncorrectExpression { expression: ".to_string().concat(
                    debug_text(expression.as_str()).as_str(),
                ).concat(", issue: ").concat(debug_text(issue.as_str()).as_str()).concat(" }")
            },
        }
    }
}

impl ProximaToolCallError {
    /// The error written out as text.
    pub fn to_text(&self) -> (r: String)
        ensures
            r@ == call_error_text(self@),
    {
        match self {
            ProximaToolCallError::Parsing(inner) => "Parsing(".to_string().concat(
                inner.to_text().as_str(),
            ).concat(")"),
            ProximaToolCallError::WebError(text) => "WebError(".to_string().concat(
                debug_text(text.as_str()).as_str(),
            ).concat(")"),
            ProximaToolCallError::Network(text) => "Network(".to_string().concat(
                debug_text(text.as_str()).as_str(),
            ).concat(")"),
        }
    }

    /// The error output for a call of `tool` with `action`, as an item.
    pub fn generate_error_output_just_context_data(&self, tool: String, action: String) -> (r:
        ContextData)
        ensures
            r@ == ContextDataView::Text(error_output_text(self@, tool@, action@)),
    {
        ContextData::Text(
            "<error><tool>".to_string().concat(tool.as_str()).concat("</tool><action>").concat(
                action.as_str(),
            ).concat("</action><error_data>").concat(self.to_text().as_str()).concat(
                "</error_data></error>",
            ),
        )
    }

    /// The error output for a call of `tool` with `action`, as a tool fragment.
    pub fn generate_error_output(&self, tool: String, action: String) -> (r: ContextPart)
        ensures
            r@ == (ContextPartView {
                data: seq![ContextDataView::Text(error_output_text(self@, tool@, action@))],
                position: ContextPosition::Tool,
            }),
    {
        let data = self.generate_error_output_just_context_data(tool, action);
        let mut items: Vec<ContextData> = Vec::new();
        items.push(data);
        proof {
            assert(crate::database::context::data_views(items@) =~= seq![data@]);
        }
        ContextPart::new(items, ContextPosition::Tool)
    }
}

/// The output of a call of `tool` with `action`, as an item.
pub fn generate_call_output(tool: String, action: String, output_data: String) -> (r: ContextData)
    ensures
        r@ == ContextDataView::Text(call_output_text(tool@, action@, output_data@)),
{
    ContextData::Text(
        "<output><tool>".to_string().concat(tool.as_str()).concat("</tool><action>").concat(
            action.as_str(),
        ).concat("</action><output_data>").concat(output_data.as_str()).concat(
            "</output_data></output>",
        ),
    )
}

/// The entries of a key-value memory, oldest first.
pub type MemoryView = Seq<(Seq<char>, Seq<char>)>;

/// Whether no key occurs twice among `entries`, as in a map.
pub open spec fn memory_keys_unique(entries: MemoryView) -> bool {
    forall|i: int, j: int|
        0 <= i < j < entries.len() ==> (#[trigger] entries[i]).0 != (#[trigger] entries[j]).0
}

/// The values of a sequence of memory entries.
pub open spec fn entry_views(entries: Seq<(String, String)>) -> MemoryView {
    entries.map_values(|e: (String, String)| (e.0@, e.1@))
}

/// The index of the first entry with `key`, or the number of entries where
/// there is none.
pub open spec fn memory_find(entries: MemoryView, key: Seq<char>) -> int
    decreases entries.len(),
{
    if entries.len() == 0 || entries[0].0 == key {
        0
    } else {
        1 + memory_find(entries.drop_first(), key)
    }
}

/// The value kept under `key`, if any.
pub open spec fn memory_get(entries: MemoryView, key: Seq<char>) -> Option<Seq<char>> {
    let i = memory_find(entries, key);
    if 0 <= i < entries.len() {
        Some(entries[i].1)
    } else {
        None
    }
}

/// The memory with `value` under `key`: in the place of the entry the key
/// had, or at the end where it had none.
pub open spec fn memory_put(entries: MemoryView, key: Seq<char>, value: Seq<char>) -> MemoryView {
    let i = memory_find(entries, key);
    if 0 <= i < entries.len() {
        entries.update(i, (key, value))
    } else {
        entries.push((key, value))
    }
}

/// The memory without the entry of `key`.
pub open spec fn memory_without(entries: MemoryView, key: Seq<char>) -> MemoryView {
    let i = memory_find(entries, key);
    if 0 <= i < entries.len() {
        entries.remove(i)
    } else {
        entries
    }
}

/// How the memory is written out for the model.
pub open spec fn memory_text(entries: MemoryView) -> Seq<char>
    decreases entries.len(),
{
    if entries.len() == 0 {
        Seq::empty()
    } else {
        let last = debug_quoted(entries.last().0) + ": "@ + debug_quoted(entries.last().1);
        if entries.len() == 1 {
            last
        } else {
            memory_text(entries.drop_last()) + ", "@ + last
        }
    }
}

/// The first entry with `key` is found at an index in range that holds
/// the key, or the index is the number of entries and none holds it.
pub proof fn lemma_memory_find_bounds(entries: MemoryView, key: Seq<char>)
    ensures
        0 <= memory_find(entries, key) <= entries.len(),
        memory_find(entries, key) < entries.len() ==> entries[memory_find(entries, key)].0 == key,
        forall|i: int| 0 <= i < memory_find(entries, key) ==> entries[i].0 != key,
    decreases entries.len(),
{
    if entries.len() == 0 || entries[0].0 == key {
    } else {
        lemma_memory_find_bounds(entries.drop_first(), key);
        let k = memory_find(entries.drop_first(), key);
        assert forall|i: int| 0 <= i < k + 1 implies entries[i].0 != key by {
            if i > 0 {
                assert(entries.drop_first()[i - 1].0 != key);
            }
        }
    }
}

/// A memory in which no key occurs twice stays one when a value is put
/// under a key and when the entry of a key is taken out.
pub proof fn lemma_memory_stays_unique(entries: MemoryView, key: Seq<char>, value: Seq<char>)
    requires
        memory_keys_unique(entries),
    ensures
        memory_keys_unique(memory_put(entries, key, value)),
        memory_keys_unique(memory_without(entries, key)),
{
    lemma_memory_find_bounds(entries, key);
    let k = memory_find(entries, key);
    let put = memory_put(entries, key, value);
    assert forall|i: int, j: int| 0 <= i < j < put.len() implies (#[trigger] put[i]).0 != (
    #[trigger] put[j]).0 by {
        if k < entries.len() {
            assert(put[i].0 == entries[i].0);
            assert(put[j].0 == entries[j].0);
        } else if j < entries.len() {
            assert(put[i] == entries[i] && put[j] == entries[j]);
        } else {
            assert(put[i] == entries[i]);
        }
    }
    let without = memory_without(entries, key);
    assert forall|i: int, j: int| 0 <= i < j < without.len() implies (#[trigger] without[i]).0
        != (#[trigger] without[j]).0 by {
        if k < entries.len() {
            let a = if i < k { i } else { i + 1 };
            let b = if j < k { j } else { j + 1 };
            assert(without[i] == entries[a] && without[j] == entries[b]);
        }
    }
}

/// The memory is a map: what was put under a key is what is kept under it,
/// what is kept under every other key stays, and nothing is kept under a
/// key that was taken out.
pub proof fn lemma_memory_is_a_map(
    entries: MemoryView,
    key: Seq<char>,
    value: Seq<char>,
    other: Seq<char>,
)
    requires
        other != key,
    ensures
        memory_get(memory_put(entries, key, value), key) == Some(value),
        memory_get(memory_put(entries, key, value), other) == memory_get(entries, other),
        memory_get(memory_without(entries, key), other) == memory_get(entries, other),
        memory_keys_unique(entries) ==> memory_get(memory_without(entries, key), key) is None,
{
    lemma_memory_find_bounds(entries, key);
    lemma_memory_find_bounds(entries, other);
    let k = memory_find(entries, key);
    let o = memory_find(entries, other);
    let put = memory_put(entries, key, value);
    assert forall|i: int| 0 <= i < k implies put[i].0 != key by {
        assert(entries[i].0 != key);
    }
    lemma_memory_find(put, key, k);
    assert forall|i: int| 0 <= i < o implies put[i].0 != other by {
        assert(entries[i].0 != other);
    }
    if o < entries.len() {
        assert(put[o].0 == other);
        lemma_memory_find(put, other, o);
    } else {
        assert forall|i: int| 0 <= i < put.len() implies put[i].0 != other by {
            if i < entries.len() {
                assert(entries[i].0 != other);
            }
        }
        lemma_memory_find(put, other, put.len() as int);
    }
    let without = memory_without(entries, key);
    if k < entries.len() {
        if o < k {
            assert forall|i: int| 0 <= i < o implies without[i].0 != other by {
                assert(entries[i].0 != other);
            }
            assert(without[o] == entries[o]);
            lemma_memory_find(without, other, o);
        } else if o < entries.len() {
            assert forall|i: int| 0 <= i < o - 1 implies without[i].0 != other by {
                if i < k {
                    assert(entries[i].0 != other);
                } else {
                    assert(entries[i + 1].0 != other);
                }
            }
            assert(without[o - 1] == entries[o]);
            lemma_memory_find(without, other, o - 1);
        } else {
            assert forall|i: int| 0 <= i < without.len() implies without[i].0 != other by {
                if i < k {
                    assert(entries[i].0 != other);
                } else {
                    assert(entries[i + 1].0 != other);
                }
            }
            lemma_memory_find(without, other, without.len() as int);
        }
        if forall|i: int, j: int|
            0 <= i < j < entries.len() ==> (#[trigger] entries[i]).0 != (#[trigger] entries[j]).0 {
            assert forall|i: int| 0 <= i < without.len() implies without[i].0 != key by {
                if i < k {
                    assert(entries[i].0 != key);
                } else {
                    assert(entries[k].0 != entries[i + 1].0);
                }
            }
            lemma_memory_find(without, key, without.len() as int);
        }
    }
}

proof fn lemma_memory_find(entries: MemoryView, key: Seq<char>, k: int)
    requires
        0 <= k <= entries.len(),
        forall|i: int| 0 <= i < k ==> entries[i].0 != key,
        k < entries.len() ==> entries[k].0 == key,
    ensures
        memory_find(entries, key) == k,
    decreases k,
{
    if k > 0 {
        lemma_memory_find(entries.drop_first(), key, k - 1);
    }
}

fn find_entry(entries: &Vec<(String, String)>, key: &String) -> (k: usize)
    ensures
        k == memory_find(entry_views(entries@), key@),
        k <= entries.len(),
{
    let mut k: usize = 0;
    while k < entries.len() && !same_text(entries[k].0.as_str(), key.as_str())
        invariant
            k <= entries.len(),
            forall|i: int| 0 <= i < k ==> entry_views(entries@)[i].0 != key@,
        decreases entries.len() - k,
    {
        k += 1;
    }
    proof {
        lemma_memory_find(entry_views(entries@), key@, k as int);
    }
    k
}

/// Clones the entries of a memory.
pub fn clone_entries(entries: &Vec<(String, String)>) -> (r: Vec<(String, String)>)
    ensures
        entry_views(r@) == entry_views(entries@),
{
    let mut r: Vec<(String, String)> = Vec::new();
    let mut i: usize = 0;
    while i < entries.len()
        invariant
            i <= entries.len(),
            entry_views(r@) == entry_views(entries@).take(i as int),
        decreases entries.len() - i,
    {
        let ghost before = r@;
        let entry = (entries[i].0.clone(), entries[i].1.clone());
        r.push(entry);
        proof {
            assert(entry_views(r@) =~= entry_views(before).push((entry.0@, entry.1@)));
            assert(entry_views(entries@).take(i + 1) =~= entry_views(entries@).take(
                i as int,
            ).push(entry_views(entries@)[i as int]));
        }
        i += 1;
    }
    proof {
        assert(entry_views(entries@).take(entries.len() as int) =~= entry_views(entries@));
    }
    r
}

/// Whether no key occurs twice among `entries`.
pub fn entries_are_unique(entries: &Vec<(String, String)>) -> (r: bool)
    ensures
        r == memory_keys_unique(entry_views(entries@)),
{
    let mut j: usize = 0;
    while j < entries.len()
        invariant
            j <= entries.len(),
            forall|a: int, b: int|
                0 <= a < b < j ==> (#[trigger] entry_views(entries@)[a]).0 != (
                #[trigger] entry_views(entries@)[b]).0,
        decreases entries.len() - j,
    {
        let mut i: usize = 0;
        while i < j
            invariant
                i <= j < entries.len(),
                forall|a: int|
                    0 <= a < i ==> (#[trigger] entry_views(entries@)[a]).0 != entry_views(
                        entries@,
                    )[j as int].0,
            decreases j - i,
        {
            if same_text(entries[i].0.as_str(), entries[j].0.as_str()) {
                proof {
                    assert(entry_views(entries@)[i as int].0 == entry_views(entries@)[j as int].0);
                }
                return false;
            }
            i += 1;
        }
        j += 1;
    }
    true
}

/// Puts `value` under `key`. Where no key occurred twice, none does.
pub fn put_entry(entries: &mut Vec<(String, String)>, key: String, value: String)
    ensures
        entry_views(final(entries)@) == memory_put(entry_views(old(entries)@), key@, value@),
        memory_keys_unique(entry_views(old(entries)@)) ==> memory_keys_unique(
            entry_views(final(entries)@),
        ),
{
    proof {
        if memory_keys_unique(entry_views(entries@)) {
            lemma_memory_stays_unique(entry_views(entries@), key@, value@);
        }
    }
    let k = find_entry(entries, &key);
    let ghost before = entries@;
    if k < entries.len() {
        entries.remove(k);
        entries.insert(k, (key, value));
        proof {
            assert(entry_views(entries@) =~= entry_views(before).update(
                k as int,
                (key@, value@),
            ));
        }
    } else {
        entries.push((key, value));
        proof {
            assert(entry_views(entries@) =~= entry_views(before).push((key@, value@)));
        }
    }
}

/// Takes out the entry of `key`, if there is one. Where no key occurred
/// twice, none does.
pub fn remove_entry(entries: &mut Vec<(String, String)>, key: &String)
    ensures
        entry_views(final(entries)@) == memory_without(entry_views(old(entries)@), key@),
        memory_keys_unique(entry_views(old(entries)@)) ==> memory_keys_unique(
            entry_views(final(entries)@),
        ),
{
    proof {
        if memory_keys_unique(entry_views(entries@)) {
            lemma_memory_stays_unique(entry_views(entries@), key@, Seq::empty());
        }
    }
    let k = find_entry(entries, key);
    let ghost before = entries@;
    if k < entries.len() {
        entries.remove(k);
        proof {
            assert(entry_views(entries@) =~= entry_views(before).remove(k as int));
        }
    }
}

fn entries_text(entries: &Vec<(String, String)>) -> (r: String)
    ensures
        r@ == memory_text(entry_views(entries@)),
{
    let mut r = String::new();
    let ghost all = entry_views(entries@);
    let mut i: usize = 0;
    while i < entries.len()
        invariant
            i <= entries.len(),
            all == entry_views(entries@),
            r@ == memory_text(all.take(i as int)),
        decreases entries.len() - i,
    {
        proof {
            assert(all.take(i + 1).drop_last() =~= all.take(i as int));
            assert(all.take(i + 1).last() == all[i as int]);
        }
        let last = debug_text(entries[i].0.as_str()).concat(": ").concat(
            debug_text(entries[i].1.as_str()).as_str(),
        );
        if i > 0 {
            r.append(", ");
            r.append(last.as_str());
        } else {
            r = last;
        }
        i += 1;
    }
    proof {
        assert(all.take(entries.len() as int) =~= all);
    }
    r
}

/// What an agent is doing.
#[derive(Clone, Copy, PartialEq, Eq, Structural, Debug)]
pub enum AgentStatus {
    /// The agent has answered and waits for the next message.
    Standby,
    /// The agent is at work on a message.
    Running,
}

/// What is kept of an agent that was started.
#[derive(PartialEq, Eq, Debug)]
pub struct AgentRecord {
    pub name: String,
    pub model: String,
    pub allowed_tools: Vec<ProximaTool>,
    pub status: AgentStatus,
    pub chat_id: usize,
}

/// The mathematical value of an [`AgentRecord`].
pub struct AgentRecordView {
    pub name: Seq<char>,
    pub model: Seq<char>,
    pub allowed_tools: Seq<ProximaTool>,
    pub status: AgentStatus,
    pub chat_id: usize,
}

impl View for AgentRecord {
    type V = AgentRecordView;

    open spec fn view(&self) -> AgentRecordView {
        AgentRecordView {
            name: self.name@,
            model: self.model@,
            allowed_tools: self.allowed_tools@,
            status: self.status,
            chat_id: self.chat_id,
        }
    }
}

/// A copy of a list of tool kinds.
pub fn clone_tool_list(tools: &Vec<ProximaTool>) -> (r: Vec<ProximaTool>)
    ensures
        r@ == tools@,
{
    let mut r: Vec<ProximaTool> = Vec::new();
    let mut i: usize = 0;
    while i < tools.len()
        invariant
            i <= tools.len(),
            r@ == tools@.take(i as int),
        decreases tools.len() - i,
    {
        r.push(tools[i]);
        proof {
            assert(r@ =~= tools@.take(i + 1));
        }
        i += 1;
    }
    proof {
        assert(tools@.take(tools.len() as int) =~= tools@);
    }
    r
}

impl Clone for AgentRecord {
    fn clone(&self) -> (r: Self)
        ensures
            r@ == self@,
    {
        AgentRecord {
            name: self.name.clone(),
            model: self.model.clone(),
            allowed_tools: clone_tool_list(&self.allowed_tools),
            status: self.status,
            chat_id: self.chat_id,
        }
    }
}

/// The values of a sequence of agent records.
pub open spec fn record_views(records: Seq<AgentRecord>) -> Seq<AgentRecordView> {
    records.map_values(|r: AgentRecord| r@)
}

/// The agents that a dialogue has started, the count of those ever started,
/// and the tools that its agents may be given.
#[derive(PartialEq, Eq, Debug)]
pub struct AgentRegistry {
    pub agents: Vec<AgentRecord>,
    pub counter: usize,
    pub allocatable_tools: Vec<ProximaTool>,
}

/// The mathematical value of an [`AgentRegistry`].
pub struct AgentRegistryView {
    pub agents: Seq<AgentRecordView>,
    pub counter: usize,
    pub allocatable_tools: Seq<ProximaTool>,
}

impl View for AgentRegistry {
    type V = AgentRegistryView;

    open spec fn view(&self) -> AgentRegistryView {
        AgentRegistryView {
            agents: record_views(self.agents@),
            counter: self.counter,
            allocatable_tools: self.allocatable_tools@,
        }
    }
}

impl Clone for AgentRegistry {
    fn clone(&self) -> (r: Self)
        ensures
            r@ == self@,
    {
        let agents = self.agents.clone();
        proof {
            assert(record_views(agents@) =~= record_views(self.agents@));
        }
        AgentRegistry {
            agents,
            counter: self.counter,
            allocatable_tools: clone_tool_list(&self.allocatable_tools),
        }
    }
}

/// The index of the first agent called `name`, or the number of agents where
/// there is none.
pub open spec fn agent_find(agents: Seq<AgentRecordView>, name: Seq<char>) -> int
    decreases agents.len(),
{
    if agents.len() == 0 || agents[0].name == name {
        0
    } else {
        1 + agent_find(agents.drop_first(), name)
    }
}

/// The agents with `record` in the place of the agent of the same name, or
/// at the end where there was none.
pub open spec fn agents_with(agents: Seq<AgentRecordView>, record: AgentRecordView) -> Seq<
    AgentRecordView,
> {
    let i = agent_find(agents, record.name);
    if 0 <= i < agents.len() {
        agents.update(i, record)
    } else {
        agents.push(record)
    }
}

/// The names of the agents, written out for the model.
pub open spec fn agent_names_text(agents: Seq<AgentRecordView>) -> Seq<char>
    decreases agents.len(),
{
    if agents.len() == 0 {
        Seq::empty()
    } else if agents.len() == 1 {
        debug_quoted(agents[0].name)
    } else {
        agent_names_text(agents.drop_last()) + ", "@ + debug_quoted(agents.last().name)
    }
}

/// Whether no two of `agents` have the same name, as in a map by name.
pub open spec fn agent_names_unique(agents: Seq<AgentRecordView>) -> bool {
    forall|i: int, j: int|
        0 <= i < j < agents.len() ==> (#[trigger] agents[i]).name != (#[trigger] agents[j]).name
}

/// The first agent called `name` is found at an index in range that holds
/// the name, or none holds it.
pub proof fn lemma_agent_find_bounds(agents: Seq<AgentRecordView>, name: Seq<char>)
    ensures
        0 <= agent_find(agents, name) <= agents.len(),
        agent_find(agents, name) < agents.len() ==> agents[agent_find(agents, name)].name == name,
        forall|i: int| 0 <= i < agent_find(agents, name) ==> agents[i].name != name,
    decreases agents.len(),
{
    if agents.len() == 0 || agents[0].name == name {
    } else {
        lemma_agent_find_bounds(agents.drop_first(), name);
        let k = agent_find(agents.drop_first(), name);
        assert forall|i: int| 0 <= i < k + 1 implies agents[i].name != name by {
            if i > 0 {
                assert(agents.drop_first()[i - 1].name != name);
            }
        }
    }
}

/// Agents of whom no two have the same name stay so when a record is kept.
pub proof fn lemma_agents_stay_unique(agents: Seq<AgentRecordView>, record: AgentRecordView)
    requires
        agent_names_unique(agents),
    ensures
        agent_names_unique(agents_with(agents, record)),
{
    lemma_agent_find_bounds(agents, record.name);
    let k = agent_find(agents, record.name);
    let with = agents_with(agents, record);
    assert forall|i: int, j: int| 0 <= i < j < with.len() implies (#[trigger] with[i]).name != (
    #[trigger] with[j]).name by {
        if k < agents.len() {
            assert(with[i].name == agents[i].name);
            assert(with[j].name == agents[j].name);
        } else if j < agents.len() {
            assert(with[i] == agents[i] && with[j] == agents[j]);
        } else {
            assert(with[i] == agents[i]);
        }
    }
}

proof fn lemma_agent_find(agents: Seq<AgentRecordView>, name: Seq<char>, k: int)
    requires
        0 <= k <= agents.len(),
        forall|i: int| 0 <= i < k ==> agents[i].name != name,
        k < agents.len() ==> agents[k].name == name,
    ensures
        agent_find(agents, name) == k,
    decreases k,
{
    if k > 0 {
        lemma_agent_find(agents.drop_first(), name, k - 1);
    }
}

impl AgentRegistry {
    /// The position of the agent called `name`, or the number of agents.
    pub fn find(&self, name: &String) -> (k: usize)
        ensures
            k == agent_find(self@.agents, name@),
            k <= self@.agents.len(),
    {
        let mut k: usize = 0;
        while k < self.agents.len() && !same_text(self.agents[k].name.as_str(), name.as_str())
            invariant
                k <= self.agents.len(),
                forall|i: int| 0 <= i < k ==> self@.agents[i].name != name@,
            decreases self.agents.len() - k,
        {
            k += 1;
        }
        proof {
            lemma_agent_find(self@.agents, name@, k as int);
        }
        k
    }

    /// Whether no two agents have the same name.
    pub fn is_well_formed(&self) -> (r: bool)
        ensures
            r == agent_names_unique(self@.agents),
    {
        let mut j: usize = 0;
        while j < self.agents.len()
            invariant
                j <= self.agents.len(),
                forall|a: int, b: int|
                    0 <= a < b < j ==> (#[trigger] self@.agents[a]).name != (
                    #[trigger] self@.agents[b]).name,
            decreases self.agents.len() - j,
        {
            let mut i: usize = 0;
            while i < j
                invariant
                    i <= j < self.agents.len(),
                    forall|a: int|
                        0 <= a < i ==> (#[trigger] self@.agents[a]).name != self@.agents[j as int].name,
                decreases j - i,
            {
                if same_text(self.agents[i].name.as_str(), self.agents[j].name.as_str()) {
                    proof {
                        assert(self@.agents[i as int].name == self@.agents[j as int].name);
                    }
                    return false;
                }
                i += 1;
            }
            j += 1;
        }
        true
    }

    /// Keeps `record`, in the place of the agent of the same name if there
    /// is one. Where no two agents had the same name, none have.
    pub fn put(&mut self, record: AgentRecord)
        ensures
            final(self)@ == (AgentRegistryView {
                agents: agents_with(old(self)@.agents, record@),
                ..old(self)@
            }),
            agent_names_unique(old(self)@.agents) ==> agent_names_unique(final(self)@.agents),
    {
        proof {
            if agent_names_unique(self@.agents) {
                lemma_agents_stay_unique(self@.agents, record@);
            }
        }
        let k = self.find(&record.name);
        let ghost before = self.agents@;
        if k < self.agents.len() {
            self.agents[k] = record;
            proof {
                assert(record_views(self.agents@) =~= record_views(before).update(
                    k as int,
                    record@,
                ));
            }
        } else {
            self.agents.push(record);
            proof {
                assert(record_views(self.agents@) =~= record_views(before).push(record@));
            }
        }
    }

    fn names_text(&self) -> (r: String)
        ensures
            r@ == agent_names_text(self@.agents),
    {
        let mut r = String::new();
        let ghost all = self@.agents;
        let mut i: usize = 0;
        while i < self.agents.len()
            invariant
                i <= self.agents.len(),
                all == record_views(self.agents@),
                r@ == agent_names_text(all.take(i as int)),
            decreases self.agents.len() - i,
        {
            proof {
                assert(all.take(i + 1).drop_last() =~= all.take(i as int));
                assert(all.take(i + 1).last() == all[i as int]);
                assert(all.take(i + 1)[0] == all[0]);
            }
            let name = debug_text(self.agents[i].name.as_str());
            if i > 0 {
                r.append(", ");
                r.append(name.as_str());
            } else {
                r = name;
            }
            i += 1;
        }
        proof {
            assert(all.take(self.agents.len() as int) =~= all);
        }
        r
    }
}

/// The data that a tool keeps from one call to the next.
#[derive(PartialEq, Eq, Debug)]
pub enum ProximaToolData {
    LocalMemory(Vec<(String, String)>),
    Agent(AgentRegistry),
}

/// The mathematical value of a [`ProximaToolData`].
pub enum ProximaToolDataView {
    LocalMemory(MemoryView),
    Agent(AgentRegistryView),
}

impl View for ProximaToolData {
    type V = ProximaToolDataView;

    open spec fn view(&self) -> ProximaToolDataView {
        match self {
            ProximaToolData::LocalMemory(entries) => ProximaToolDataView::LocalMemory(
                entry_views(entries@),
            ),
            ProximaToolData::Agent(registry) => ProximaToolDataView::Agent(registry@),
        }
    }
}

impl Clone for ProximaToolData {
    fn clone(&self) -> (r: Self)
        ensures
            r@ == self@,
    {
        match self {
            ProximaToolData::LocalMemory(entries) => ProximaToolData::LocalMemory(
                clone_entries(entries),
            ),
            ProximaToolData::Agent(registry) => ProximaToolData::Agent(registry.clone()),
        }
    }
}

impl ProximaToolDataView {
    /// Whether the data is a map, as it is meant to be: a memory holds no
    /// key twice, and a registry no name of an agent twice.
    pub open spec fn wf(self) -> bool {
        match self {
            ProximaToolDataView::LocalMemory(entries) => memory_keys_unique(entries),
            ProximaToolDataView::Agent(registry) => agent_names_unique(registry.agents),
        }
    }
}

impl ProximaToolData {
    /// Whether a memory holds no key twice, and a registry no name of an
    /// agent twice.
    pub fn is_well_formed(&self) -> (r: bool)
        ensures
            r == self@.wf(),
    {
        match self {
            ProximaToolData::LocalMemory(entries) => entries_are_unique(entries),
            ProximaToolData::Agent(registry) => registry.is_well_formed(),
        }
    }
}

/// The text that shows the model what a tool keeps.
pub open spec fn data_insert_text(data: ProximaToolDataView) -> Seq<char> {
    match data {
        ProximaToolDataView::LocalMemory(entries) => "<LocalMemory> local memory data : {"@
            + memory_text(entries) + "}<LocalMemory>"@,
        ProximaToolDataView::Agent(registry) => "<Agents> agents : ["@ + agent_names_text(
            registry.agents,
        ) + "]<Agents>"@,
    }
}

impl ProximaToolData {
    /// The item that shows the model what the tool keeps.
    pub fn get_data_to_insert(&self) -> (r: ContextData)
        ensures
            r@ == ContextDataView::Text(data_insert_text(self@)),
    {
        match self {
            ProximaToolData::LocalMemory(entries) => ContextData::Text(
                "<LocalMemory> local memory data : {".to_string().concat(
                    entries_text(entries).as_str(),
                ).concat("}<LocalMemory>"),
            ),
            ProximaToolData::Agent(registry) => ContextData::Text(
                "<Agents> agents : [".to_string().concat(registry.names_text().as_str()).concat(
                    "]<Agents>",
                ),
            ),
        }
    }

    /// The entries of a key-value memory.
    pub fn get_local_mem_data(&self) -> (r: Vec<(String, String)>)
        requires
            self is LocalMemory,
        ensures
            self@ == ProximaToolDataView::LocalMemory(entry_views(r@)),
    {
        match self {
            ProximaToolData::LocalMemory(entries) => clone_entries(entries),
            ProximaToolData::Agent(_) => Vec::new(),
        }
    }
}

impl ProximaTool {
    /// The data that the tool starts with, if it keeps any.
    pub fn get_empty_data(&self) -> (r: Option<ProximaToolData>)
        ensures
            match *self {
                ProximaTool::LocalMemory => r is Some && r->0@ == ProximaToolDataView::LocalMemory(
                    Seq::empty(),
                ),
                ProximaTool::Agent => r is Some && r->0@ == ProximaToolDataView::Agent(
                    AgentRegistryView {
                        agents: Seq::empty(),
                        counter: 0,
                        allocatable_tools: Seq::empty(),
                    },
                ),
                _ => r is None,
            },
    {
        match self {
            ProximaTool::LocalMemory => {
                let entries: Vec<(String, String)> = Vec::new();
                proof {
                    assert(entry_views(entries@) =~= Seq::empty());
                }
                Some(ProximaToolData::LocalMemory(entries))
            },
            ProximaTool::Calculator => None,
            ProximaTool::Web => None,
            ProximaTool::Python => None,
            ProximaTool::Agent => {
                let agents: Vec<AgentRecord> = Vec::new();
                proof {
                    assert(record_views(agents@) =~= Seq::empty());
                }
                Some(
                    ProximaToolData::Agent(
                        AgentRegistry { agents, counter: 0, allocatable_tools: Vec::new() },
                    ),
                )
            },
        }
    }
}

/// The tools of a dialogue, in the order they were set up, and what those
/// that keep data hold.
#[derive(PartialEq, Eq, Debug)]
pub struct Tools {
    used_tools: Vec<ProximaTool>,
    tool_data: Vec<(ProximaTool, ProximaToolData)>,
}

/// The mathematical value of a [`Tools`].
pub struct ToolsView {
    pub used_tools: Seq<ProximaTool>,
    pub tool_data: Seq<(ProximaTool, ProximaToolDataView)>,
}

/// The values of a sequence of kept data.
pub open spec fn kept_views(data: Seq<(ProximaTool, ProximaToolData)>) -> Seq<
    (ProximaTool, ProximaToolDataView),
> {
    data.map_values(|e: (ProximaTool, ProximaToolData)| (e.0, e.1@))
}

impl View for Tools {
    type V = ToolsView;

    closed spec fn view(&self) -> ToolsView {
        ToolsView { used_tools: self.used_tools@, tool_data: kept_views(self.tool_data@) }
    }
}

/// The index of the first data kept for `tool`, or the length of `data`.
pub open spec fn kept_find(data: Seq<(ProximaTool, ProximaToolDataView)>, tool: ProximaTool) -> int
    decreases data.len(),
{
    if data.len() == 0 || data[0].0 == tool {
        0
    } else {
        1 + kept_find(data.drop_first(), tool)
    }
}

/// What is kept for `tool`, if anything.
pub open spec fn kept_for(data: Seq<(ProximaTool, ProximaToolDataView)>, tool: ProximaTool)
    -> Option<ProximaToolDataView> {
    let i = kept_find(data, tool);
    if 0 <= i < data.len() {
        Some(data[i].1)
    } else {
        None
    }
}

/// `data` with `new_data` kept for `tool`: in the place of what was kept for
/// it, or at the end where nothing was.
pub open spec fn kept_with(
    data: Seq<(ProximaTool, ProximaToolDataView)>,
    tool: ProximaTool,
    new_data: ProximaToolDataView,
) -> Seq<(ProximaTool, ProximaToolDataView)> {
    let i = kept_find(data, tool);
    if 0 <= i < data.len() {
        data.update(i, (tool, new_data))
    } else {
        data.push((tool, new_data))
    }
}

/// Whether no tool has its data kept twice in `data`, as in a map by tool,
/// and what is kept for each is a map in turn.
pub open spec fn kept_ok(data: Seq<(ProximaTool, ProximaToolDataView)>) -> bool {
    &&& forall|i: int, j: int|
        0 <= i < j < data.len() ==> (#[trigger] data[i]).0 != (#[trigger] data[j]).0
    &&& forall|i: int| 0 <= i < data.len() ==> (#[trigger] data[i]).1.wf()
}

impl ToolsView {
    /// Whether no tool has its data kept twice, and what is kept for each
    /// tool is a map, as it is meant to be.
    pub open spec fn wf(self) -> bool {
        kept_ok(self.tool_data)
    }
}

/// The first data kept for `tool` is found at an index in range that is
/// that of the tool, or nothing is kept for it.
pub proof fn lemma_kept_find_bounds(
    data: Seq<(ProximaTool, ProximaToolDataView)>,
    tool: ProximaTool,
)
    ensures
        0 <= kept_find(data, tool) <= data.len(),
        kept_find(data, tool) < data.len() ==> data[kept_find(data, tool)].0 == tool,
        forall|i: int| 0 <= i < kept_find(data, tool) ==> data[i].0 != tool,
    decreases data.len(),
{
    if data.len() == 0 || data[0].0 == tool {
    } else {
        lemma_kept_find_bounds(data.drop_first(), tool);
        let k = kept_find(data.drop_first(), tool);
        assert forall|i: int| 0 <= i < k + 1 implies data[i].0 != tool by {
            if i > 0 {
                assert(data.drop_first()[i - 1].0 != tool);
            }
        }
    }
}

/// What is kept stays in order when data that is a map is kept for a tool.
pub proof fn lemma_kept_stays_ok(
    data: Seq<(ProximaTool, ProximaToolDataView)>,
    tool: ProximaTool,
    new_data: ProximaToolDataView,
)
    requires
        kept_ok(data),
        new_data.wf(),
    ensures
        kept_ok(kept_with(data, tool, new_data)),
{
    lemma_kept_find_bounds(data, tool);
    let k = kept_find(data, tool);
    let with = kept_with(data, tool, new_data);
    assert forall|i: int, j: int| 0 <= i < j < with.len() implies (#[trigger] with[i]).0 != (
    #[trigger] with[j]).0 by {
        if k < data.len() {
            assert(with[i].0 == data[i].0);
            assert(with[j].0 == data[j].0);
        } else if j < data.len() {
            assert(with[i] == data[i] && with[j] == data[j]);
        } else {
            assert(with[i] == data[i]);
        }
    }
    assert forall|i: int| 0 <= i < with.len() implies (#[trigger] with[i]).1.wf() by {
        if i < data.len() && i != k {
            assert(with[i] == data[i]);
        }
    }
}

/// Data that is a map stays one when its references follow an insertion.
pub proof fn lemma_shifted_data_wf(applies: bool, data: ProximaToolDataView, at: usize)
    requires
        data.wf(),
    ensures
        data_shifted_if(applies, data, at).wf(),
{
    match data {
        ProximaToolDataView::Agent(registry) => {
            let after = registry.agents.map_values(|r: AgentRecordView| record_shifted(r, at));
            assert forall|i: int, j: int| 0 <= i < j < after.len() implies (#[trigger] after[i]).name
                != (#[trigger] after[j]).name by {
                assert(registry.agents[i].name != registry.agents[j].name);
            }
        },
        _ => {},
    }
}

/// Tools that are in order stay so when their references follow an
/// insertion.
pub proof fn lemma_shifted_tools_wf(applies: bool, tools: ToolsView, at: usize)
    requires
        tools.wf(),
    ensures
        tools_shifted_if(applies, tools, at).wf(),
{
    let after = tools_shifted_if(applies, tools, at).tool_data;
    assert forall|i: int, j: int| 0 <= i < j < after.len() implies (#[trigger] after[i]).0 != (
    #[trigger] after[j]).0 by {
        assert(tools.tool_data[i].0 != tools.tool_data[j].0);
    }
    assert forall|i: int| 0 <= i < after.len() implies (#[trigger] after[i]).1.wf() by {
        assert(tools.tool_data[i].1.wf());
        lemma_shifted_data_wf(applies, tools.tool_data[i].1, at);
    }
}

proof fn lemma_kept_find(data: Seq<(ProximaTool, ProximaToolDataView)>, tool: ProximaTool, k: int)
    requires
        0 <= k <= data.len(),
        forall|i: int| 0 <= i < k ==> data[i].0 != tool,
        k < data.len() ==> data[k].0 == tool,
    ensures
        kept_find(data, tool) == k,
    decreases k,
{
    if k > 0 {
        lemma_kept_find(data.drop_first(), tool, k - 1);
    }
}

/// The data that a tool starts with, if it keeps any.
pub open spec fn empty_data(tool: ProximaTool) -> Option<ProximaToolDataView> {
    match tool {
        ProximaTool::LocalMemory => Some(ProximaToolDataView::LocalMemory(Seq::empty())),
        ProximaTool::Agent => Some(
            ProximaToolDataView::Agent(
                AgentRegistryView {
                    agents: Seq::empty(),
                    counter: 0,
                    allocatable_tools: Seq::empty(),
                },
            ),
        ),
        _ => None,
    }
}

/// The tools that `settings` set up, in order.
pub open spec fn tools_of_settings(settings: Seq<ChatSettingView>) -> Seq<ProximaTool>
    decreases settings.len(),
{
    if settings.len() == 0 {
        Seq::empty()
    } else {
        match settings.last() {
            ChatSettingView::Tool(tool, _) => tools_of_settings(settings.drop_last()).push(tool),
            _ => tools_of_settings(settings.drop_last()),
        }
    }
}

/// What the tools that `settings` set up keep at the start: for each tool
/// the data of its setting or, without that, its empty data; a later setting
/// of a tool replaces what an earlier one gave.
pub open spec fn data_of_settings(settings: Seq<ChatSettingView>) -> Seq<
    (ProximaTool, ProximaToolDataView),
>
    decreases settings.len(),
{
    if settings.len() == 0 {
        Seq::empty()
    } else {
        let before = data_of_settings(settings.drop_last());
        match settings.last() {
            ChatSettingView::Tool(tool, given) => {
                let start = if given is Some {
                    given
                } else {
                    empty_data(tool)
                };
                match start {
                    Some(data) => kept_with(before, tool, data),
                    None => before,
                }
            },
            _ => before,
        }
    }
}

/// Whether the data that the tools of `settings` start with is in order:
/// each is a map, as it is meant to be.
pub open spec fn settings_data_ok(settings: Seq<ChatSettingView>) -> bool {
    forall|i: int|
        0 <= i < settings.len() ==> match #[trigger] settings[i] {
            ChatSettingView::Tool(_, Some(data)) => data.wf(),
            _ => true,
        }
}

/// Settings whose data is in order give tools that are in order.
pub proof fn lemma_settings_give_ok_data(settings: Seq<ChatSettingView>)
    requires
        settings_data_ok(settings),
    ensures
        kept_ok(data_of_settings(settings)),
    decreases settings.len(),
{
    if settings.len() > 0 {
        assert forall|i: int| 0 <= i < settings.drop_last().len() implies match #[trigger] settings.drop_last()[i] {
            ChatSettingView::Tool(_, Some(data)) => data.wf(),
            _ => true,
        } by {
            assert(settings.drop_last()[i] == settings[i]);
        }
        lemma_settings_give_ok_data(settings.drop_last());
        let before = data_of_settings(settings.drop_last());
        match settings.last() {
            ChatSettingView::Tool(tool, given) => {
                assert(settings[settings.len() - 1] == settings.last());
                let start = if given is Some {
                    given
                } else {
                    empty_data(tool)
                };
                if start is Some {
                    lemma_kept_stays_ok(before, tool, start->0);
                }
            },
            _ => {},
        }
    }
}

/// The tools that `settings` give a dialogue: none without a tool setting.
pub open spec fn derived_tools(settings: Seq<ChatSettingView>) -> Option<ToolsView> {
    if tools_of_settings(settings).len() == 0 {
        None
    } else {
        Some(
            ToolsView {
                used_tools: tools_of_settings(settings),
                tool_data: data_of_settings(settings),
            },
        )
    }
}

/// The opening of what a model is told about calling tools.
pub open spec fn tool_use_header() -> Seq<char> {
    "<ToolUse>\nYou can call tools. To call one, end your reply with a block of the form <call><tool>NAME</tool><action>ACTION</action><in_data>INPUT</in_data></call>. What the tools answer comes back between <outputs> and </outputs>. A reply without a call is final and must be written between <response> and </response>. These are the tools:"@
}

/// What a model is told about calling the tools `used`.
pub open spec fn tool_prompt_text(used: Seq<ProximaTool>) -> Seq<char>
    decreases used.len(),
{
    if used.len() == 0 {
        tool_use_header()
    } else {
        tool_prompt_text(used.drop_last()) + tool_description(used.last())
    }
}

/// The items that show the model what the tools keep.
pub open spec fn data_inserts(data: Seq<(ProximaTool, ProximaToolDataView)>) -> Seq<
    ContextDataView,
> {
    data.map_values(
        |e: (ProximaTool, ProximaToolDataView)| ContextDataView::Text(data_insert_text(e.1)),
    )
}

/// An agent record after a chat was inserted at `at`: the chat that keeps
/// the dialogue of the agent is the one it was.
pub open spec fn record_shifted(record: AgentRecordView, at: usize) -> AgentRecordView {
    AgentRecordView { chat_id: shifted(record.chat_id, at), ..record }
}

/// What a tool keeps after an insertion at `at`, where the insertion was
/// one of a chat (`applies`): every agent record follows its chat. What
/// holds no reference stays as it is.
pub open spec fn data_shifted_if(applies: bool, data: ProximaToolDataView, at: usize)
    -> ProximaToolDataView {
    match data {
        ProximaToolDataView::Agent(registry) => if applies {
            ProximaToolDataView::Agent(
                AgentRegistryView {
                    agents: registry.agents.map_values(
                        |r: AgentRecordView| record_shifted(r, at),
                    ),
                    ..registry
                },
            )
        } else {
            data
        },
        ProximaToolDataView::LocalMemory(_) => data,
    }
}

/// Tools after an insertion at `at`, where the insertion was one of a chat
/// (`applies`): what each tool keeps follows the chats.
pub open spec fn tools_shifted_if(applies: bool, tools: ToolsView, at: usize) -> ToolsView {
    ToolsView {
        tool_data: tools.tool_data.map_values(
            |e: (ProximaTool, ProximaToolDataView)| (e.0, data_shifted_if(applies, e.1, at)),
        ),
        ..tools
    }
}

impl AgentRegistry {
    /// The registry after a chat was inserted at `at`.
    pub fn shifted_copy(&self, at: usize) -> (r: AgentRegistry)
        ensures
            r@ == (AgentRegistryView {
                agents: self@.agents.map_values(|r: AgentRecordView| record_shifted(r, at)),
                ..self@
            }),
    {
        let mut agents: Vec<AgentRecord> = Vec::new();
        let mut i: usize = 0;
        while i < self.agents.len()
            invariant
                i <= self.agents.len(),
                agents.len() == i,
                forall|j: int|
                    0 <= j < i ==> (#[trigger] agents@[j])@ == record_shifted(
                        self.agents@[j]@,
                        at,
                    ),
            decreases self.agents.len() - i,
        {
            let record = &self.agents[i];
            agents.push(
                AgentRecord {
                    name: record.name.clone(),
                    model: record.model.clone(),
                    allowed_tools: clone_tool_list(&record.allowed_tools),
                    status: record.status,
                    chat_id: shift_id(record.chat_id, at),
                },
            );
            i += 1;
        }
        proof {
            assert(record_views(agents@) =~= self@.agents.map_values(
                |r: AgentRecordView| record_shifted(r, at),
            ));
        }
        AgentRegistry {
            agents,
            counter: self.counter,
            allocatable_tools: clone_tool_list(&self.allocatable_tools),
        }
    }
}

impl ProximaToolData {
    /// What the tool keeps after an insertion at `at`, which was one of a
    /// chat where `applies`.
    pub fn shifted_copy(&self, applies: bool, at: usize) -> (r: ProximaToolData)
        ensures
            r@ == data_shifted_if(applies, self@, at),
    {
        match self {
            ProximaToolData::Agent(registry) => if applies {
                ProximaToolData::Agent(registry.shifted_copy(at))
            } else {
                ProximaToolData::Agent(registry.clone())
            },
            ProximaToolData::LocalMemory(entries) => ProximaToolData::LocalMemory(
                clone_entries(entries),
            ),
        }
    }
}

impl Tools {
    /// Brings what the tools keep up to date after an insertion at `at`,
    /// which was one of a chat where `applies`.
    pub fn shift_references(&mut self, applies: bool, at: usize)
        ensures
            final(self)@ == tools_shifted_if(applies, old(self)@, at),
            old(self)@.wf() ==> final(self)@.wf(),
    {
        proof {
            if self@.wf() {
                lemma_shifted_tools_wf(applies, self@, at);
            }
        }
        let mut tool_data: Vec<(ProximaTool, ProximaToolData)> = Vec::new();
        let mut i: usize = 0;
        while i < self.tool_data.len()
            invariant
                i <= self.tool_data.len(),
                tool_data.len() == i,
                self@ == old(self)@,
                forall|j: int|
                    0 <= j < i ==> (#[trigger] kept_views(tool_data@)[j]) == (
                        self.tool_data@[j].0,
                        data_shifted_if(applies, self.tool_data@[j].1@, at),
                    ),
            decreases self.tool_data.len() - i,
        {
            let ghost before = tool_data@;
            let entry = (self.tool_data[i].0, self.tool_data[i].1.shifted_copy(applies, at));
            tool_data.push(entry);
            proof {
                assert forall|j: int| 0 <= j < i + 1 implies (#[trigger] kept_views(
                    tool_data@,
                )[j]) == (
                    self.tool_data@[j].0,
                    data_shifted_if(applies, self.tool_data@[j].1@, at),
                ) by {
                    if j < i {
                        assert(kept_views(before)[j] == (before[j].0, before[j].1@));
                        assert(tool_data@[j] == before[j]);
                    }
                }
            }
            i += 1;
        }
        proof {
            assert(kept_views(tool_data@) =~= old(self)@.tool_data.map_values(
                |e: (ProximaTool, ProximaToolDataView)| (e.0, data_shifted_if(applies, e.1, at)),
            ));
        }
        self.tool_data = tool_data;
    }
}

impl Clone for Tools {
    fn clone(&self) -> (r: Self)
        ensures
            r@ == self@,
    {
        let mut tool_data: Vec<(ProximaTool, ProximaToolData)> = Vec::new();
        let mut i: usize = 0;
        while i < self.tool_data.len()
            invariant
                i <= self.tool_data.len(),
                kept_views(tool_data@) == kept_views(self.tool_data@).take(i as int),
            decreases self.tool_data.len() - i,
        {
            let ghost before = tool_data@;
            let entry = (self.tool_data[i].0, self.tool_data[i].1.clone());
            tool_data.push(entry);
            proof {
                assert(kept_views(tool_data@) =~= kept_views(before).push((entry.0, entry.1@)));
                assert(kept_views(self.tool_data@).take(i + 1) =~= kept_views(
                    self.tool_data@,
                ).take(i as int).push(kept_views(self.tool_data@)[i as int]));
            }
            i += 1;
        }
        proof {
            assert(kept_views(self.tool_data@).take(self.tool_data.len() as int) =~= kept_views(
                self.tool_data@,
            ));
        }
        Tools { used_tools: clone_tool_list(&self.used_tools), tool_data }
    }
}

fn find_kept(data: &Vec<(ProximaTool, ProximaToolData)>, tool: ProximaTool) -> (k: usize)
    ensures
        k == kept_find(kept_views(data@), tool),
        k <= data.len(),
{
    let mut k: usize = 0;
    while k < data.len() && data[k].0 != tool
        invariant
            k <= data.len(),
            forall|i: int| 0 <= i < k ==> kept_views(data@)[i].0 != tool,
        decreases data.len() - k,
    {
        k += 1;
    }
    proof {
        lemma_kept_find(kept_views(data@), tool, k as int);
    }
    k
}

fn keep_data(data: &mut Vec<(ProximaTool, ProximaToolData)>, tool: ProximaTool, new_data: ProximaToolData)
    ensures
        kept_views(final(data)@) == kept_with(kept_views(old(data)@), tool, new_data@),
        kept_ok(kept_views(old(data)@)) && new_data@.wf() ==> kept_ok(kept_views(final(data)@)),
{
    proof {
        if kept_ok(kept_views(data@)) && new_data@.wf() {
            lemma_kept_stays_ok(kept_views(data@), tool, new_data@);
        }
    }
    let k = find_kept(data, tool);
    let ghost before = data@;
    if k < data.len() {
        data[k] = (tool, new_data);
        proof {
            assert(kept_views(data@) =~= kept_views(before).update(k as int, (tool, new_data@)));
        }
    } else {
        data.push((tool, new_data));
        proof {
            assert(kept_views(data@) =~= kept_views(before).push((tool, new_data@)));
        }
    }
}

/// The tools that `settings` set up, in order.
pub fn tools_in_settings(settings: &Vec<ChatSetting>) -> (r: Vec<ProximaTool>)
    ensures
        r@ == tools_of_settings(setting_views(settings@)),
{
    let mut r: Vec<ProximaTool> = Vec::new();
    let ghost all = setting_views(settings@);
    let mut i: usize = 0;
    while i < settings.len()
        invariant
            i <= settings.len(),
            all == setting_views(settings@),
            r@ == tools_of_settings(all.take(i as int)),
        decreases settings.len() - i,
    {
        proof {
            assert(all.take(i + 1).drop_last() =~= all.take(i as int));
            assert(all.take(i + 1).last() == settings@[i as int]@);
        }
        match &settings[i] {
            ChatSetting::Tool(tool, _) => {
                r.push(*tool);
            },
            _ => (),
        }
        i += 1;
    }
    proof {
        assert(all.take(settings.len() as int) =~= all);
    }
    r
}

/// Whether two lists of tools are the same.
pub fn same_tool_list(a: &Vec<ProximaTool>, b: &Vec<ProximaTool>) -> (r: bool)
    ensures
        r == (a@ == b@),
{
    if a.len() != b.len() {
        return false;
    }
    let mut i: usize = 0;
    while i < a.len()
        invariant
            i <= a.len(),
            a.len() == b.len(),
            forall|j: int| 0 <= j < i ==> a@[j] == b@[j],
        decreases a.len() - i,
    {
        if a[i] != b[i] {
            return false;
        }
        i += 1;
    }
    proof {
        assert(a@ =~= b@);
    }
    true
}

impl Tools {
    /// The tools `used_tools`, keeping `tool_data`.
    pub fn from_parts(used_tools: Vec<ProximaTool>, tool_data: Vec<(ProximaTool, ProximaToolData)>)
        -> (r: Tools)
        ensures
            r@ == (ToolsView { used_tools: used_tools@, tool_data: kept_views(tool_data@) }),
    {
        Tools { used_tools, tool_data }
    }

    /// Whether no tool has its data kept twice, and what is kept for each
    /// tool is a map.
    pub fn is_well_formed(&self) -> (r: bool)
        ensures
            r == self@.wf(),
    {
        let ghost all = kept_views(self.tool_data@);
        let mut j: usize = 0;
        while j < self.tool_data.len()
            invariant
                j <= self.tool_data.len(),
                all == kept_views(self.tool_data@),
                forall|a: int, b: int|
                    0 <= a < b < j ==> (#[trigger] all[a]).0 != (#[trigger] all[b]).0,
                forall|a: int| 0 <= a < j ==> (#[trigger] all[a]).1.wf(),
            decreases self.tool_data.len() - j,
        {
            proof {
                assert(all[j as int] == (self.tool_data@[j as int].0, self.tool_data@[j as int].1@));
            }
            if !self.tool_data[j].1.is_well_formed() {
                return false;
            }
            let mut i: usize = 0;
            while i < j
                invariant
                    i <= j < self.tool_data.len(),
                    all == kept_views(self.tool_data@),
                    forall|a: int| 0 <= a < i ==> (#[trigger] all[a]).0 != all[j as int].0,
                decreases j - i,
            {
                proof {
                    assert(all[i as int].0 == self.tool_data@[i as int].0);
                    assert(all[j as int].0 == self.tool_data@[j as int].0);
                }
                if self.tool_data[i].0 == self.tool_data[j].0 {
                    return false;
                }
                i += 1;
            }
            j += 1;
        }
        true
    }

    /// The tools that `settings` give a dialogue.
    pub fn try_from_settings(settings: Vec<ChatSetting>) -> (r: Option<Tools>)
        ensures
            match r {
                Some(tools) => derived_tools(setting_views(settings@)) == Some(tools@)
                    && (settings_data_ok(setting_views(settings@)) ==> tools@.wf()),
                None => derived_tools(setting_views(settings@)) is None,
            },
    {
        proof {
            if settings_data_ok(setting_views(settings@)) {
                lemma_settings_give_ok_data(setting_views(settings@));
            }
        }
        let mut used_tools: Vec<ProximaTool> = Vec::new();
        let mut tool_data: Vec<(ProximaTool, ProximaToolData)> = Vec::new();
        let ghost all = setting_views(settings@);
        let mut i: usize = 0;
        proof {
            assert(kept_views(tool_data@) =~= Seq::empty());
        }
        while i < settings.len()
            invariant
                i <= settings.len(),
                all == setting_views(settings@),
                used_tools@ == tools_of_settings(all.take(i as int)),
                kept_views(tool_data@) == data_of_settings(all.take(i as int)),
            decreases settings.len() - i,
        {
            proof {
                assert(all.take(i + 1).drop_last() =~= all.take(i as int));
                assert(all.take(i + 1).last() == settings@[i as int]@);
            }
            match &settings[i] {
                ChatSetting::Tool(tool, given) => {
                    used_tools.push(*tool);
                    let start = match given {
                        Some(data) => Some(data.clone()),
                        None => tool.get_empty_data(),
                    };
                    match start {
                        Some(data) => {
                            keep_data(&mut tool_data, *tool, data);
                        },
                        None => (),
                    }
                },
                _ => (),
            }
            i += 1;
        }
        proof {
            assert(all.take(settings.len() as int) =~= all);
        }
        if used_tools.len() > 0 {
            Some(Tools { used_tools, tool_data })
        } else {
            None
        }
    }

    /// The tools, in the order they were set up.
    pub fn get_used_tools(&self) -> (r: &Vec<ProximaTool>)
        ensures
            r@ == self@.used_tools,
    {
        &self.used_tools
    }

    /// What the tools keep, for each tool that keeps data.
    pub fn get_tool_data(&self) -> (r: &Vec<(ProximaTool, ProximaToolData)>)
        ensures
            kept_views(r@) == self@.tool_data,
    {
        &self.tool_data
    }

    /// What is kept for `tool`, if anything.
    pub fn get_data(&self, tool: ProximaTool) -> (r: Option<&ProximaToolData>)
        ensures
            match r {
                Some(data) => kept_for(self@.tool_data, tool) == Some(data@),
                None => kept_for(self@.tool_data, tool) is None,
            },
    {
        let k = find_kept(&self.tool_data, tool);
        if k < self.tool_data.len() {
            Some(&self.tool_data[k].1)
        } else {
            None
        }
    }

    /// Keeps `data` for `tool`, in the place of what was kept for it. Tools
    /// that are in order stay so where the data is a map.
    pub fn set_data(&mut self, tool: ProximaTool, data: ProximaToolData)
        ensures
            final(self)@ == (ToolsView {
                used_tools: old(self)@.used_tools,
                tool_data: kept_with(old(self)@.tool_data, tool, data@),
            }),
            old(self)@.wf() && data@.wf() ==> final(self)@.wf(),
    {
        keep_data(&mut self.tool_data, tool, data);
    }

    /// A tool fragment that shows the model what the tools keep: one item
    /// for each tool that keeps data.
    pub fn get_tool_data_insert(&self) -> (r: ContextPart)
        ensures
            r@ == (ContextPartView {
                data: data_inserts(self@.tool_data),
                position: ContextPosition::Tool,
            }),
    {
        let mut items: Vec<ContextData> = Vec::new();
        let mut i: usize = 0;
        proof {
            assert(data_views(items@) =~= data_inserts(self@.tool_data).take(0));
        }
        while i < self.tool_data.len()
            invariant
                i <= self.tool_data.len(),
                data_views(items@) == data_inserts(self@.tool_data).take(i as int),
            decreases self.tool_data.len() - i,
        {
            let ghost before = items@;
            let item = self.tool_data[i].1.get_data_to_insert();
            items.push(item);
            proof {
                assert(data_views(items@) =~= data_views(before).push(item@));
                assert(data_inserts(self@.tool_data).take(i + 1) =~= data_inserts(
                    self@.tool_data,
                ).take(i as int).push(data_inserts(self@.tool_data)[i as int]));
            }
            i += 1;
        }
        proof {
            assert(data_inserts(self@.tool_data).take(self.tool_data.len() as int)
                =~= data_inserts(self@.tool_data));
        }
        ContextPart::new(items, ContextPosition::Tool)
    }

    /// A system fragment that tells the model how to call the tools.
    pub fn get_tool_calling_sys_prompt(&self) -> (r: ContextPart)
        ensures
            r@ == (ContextPartView {
                data: seq![
                    ContextDataView::Text(tool_prompt_text(self@.used_tools) + "\n</ToolUse>"@),
                ],
                position: ContextPosition::System,
            }),
    {
        let mut base = "<ToolUse>\nYou can call tools. To call one, end your reply with a block of the form <call><tool>NAME</tool><action>ACTION</action><in_data>INPUT</in_data></call>. What the tools answer comes back between <outputs> and </outputs>. A reply without a call is final and must be written between <response> and </response>. These are the tools:".to_string();
        let mut i: usize = 0;
        proof {
            assert(self@.used_tools.take(0).len() == 0);
        }
        while i < self.used_tools.len()
            invariant
                i <= self.used_tools.len(),
                base@ == tool_prompt_text(self@.used_tools.take(i as int)),
            decreases self.used_tools.len() - i,
        {
            proof {
                assert(self@.used_tools.take(i + 1).drop_last() =~= self@.used_tools.take(
                    i as int,
                ));
            }
            base.append(self.used_tools[i].get_description_string().as_str());
            i += 1;
        }
        proof {
            assert(self@.used_tools.take(self.used_tools.len() as int) =~= self@.used_tools);
        }
        base.append("\n</ToolUse>");
        let mut items: Vec<ContextData> = Vec::new();
        let item = ContextData::Text(base);
        items.push(item);
        proof {
            assert(data_views(items@) =~= seq![item@]);
        }
        ContextPart::new(items, ContextPosition::System)
    }
}

/// How one number stands to another.
#[derive(Clone, Copy, PartialEq, Eq, Structural, Debug)]
pub enum Comparison {
    Less,
    Equal,
    Greater,
}

/// One result of a web search.
#[derive(PartialEq, Eq, Debug)]
pub struct SearchResult {
    pub title: String,
    pub url: String,
    pub snippet: String,
}

/// The mathematical value of a [`SearchResult`].
pub struct SearchResultView {
    pub title: Seq<char>,
    pub url: Seq<char>,
    pub snippet: Seq<char>,
}

impl View for SearchResult {
    type V = SearchResultView;

    open spec fn view(&self) -> SearchResultView {
        SearchResultView { title: self.title@, url: self.url@, snippet: self.snippet@ }
    }
}

/// The values of a sequence of search results.
pub open spec fn result_views(results: Seq<SearchResult>) -> Seq<SearchResultView> {
    results.map_values(|r: SearchResult| r@)
}

/// Work that a tool needs done outside before it can answer.
#[derive(PartialEq, Eq, Debug)]
pub enum ToolRequest {
    /// The value of an arithmetic expression.
    Evaluate(String),
    /// How the value of the first expression stands to that of the second.
    Compare(String, String),
    /// A web search for `query` with at most `results` results.
    Search { results: usize, query: String },
    /// The readable text of the page at an address.
    Open(String),
    /// A run of `data` by the Python broker, in `mode`.
    Python { mode: String, data: String },
    /// A new agent: a dialogue of its own with `tools`, started by `prompt`.
    StartAgent { name: String, model: String, tools: Vec<ProximaTool>, prompt: String },
    /// A further message to the agent whose chat is `chat_id`.
    ContinueAgent { chat_id: usize, prompt: String },
}

/// The mathematical value of a [`ToolRequest`].
pub enum ToolRequestView {
    Evaluate(Seq<char>),
    Compare(Seq<char>, Seq<char>),
    Search { results: usize, query: Seq<char> },
    Open(Seq<char>),
    Python { mode: Seq<char>, data: Seq<char> },
    StartAgent { name: Seq<char>, model: Seq<char>, tools: Seq<ProximaTool>, prompt: Seq<char> },
    ContinueAgent { chat_id: usize, prompt: Seq<char> },
}

impl View for ToolRequest {
    type V = ToolRequestView;

    open spec fn view(&self) -> ToolRequestView {
        match self {
            ToolRequest::Evaluate(e) => ToolRequestView::Evaluate(e@),
            ToolRequest::Compare(a, b) => ToolRequestView::Compare(a@, b@),
            ToolRequest::Search { results, query } => ToolRequestView::Search {
                results: *results,
                query: query@,
            },
            ToolRequest::Open(url) => ToolRequestView::Open(url@),
            ToolRequest::Python { mode, data } => ToolRequestView::Python {
                mode: mode@,
                data: data@,
            },
            ToolRequest::StartAgent { name, model, tools, prompt } => ToolRequestView::StartAgent {
                name: name@,
                model: model@,
                tools: tools@,
                prompt: prompt@,
            },
            ToolRequest::ContinueAgent { chat_id, prompt } => ToolRequestView::ContinueAgent {
                chat_id: *chat_id,
                prompt: prompt@,
            },
        }
    }
}

/// What came of work done outside for a tool.
#[derive(PartialEq, Eq, Debug)]
pub enum ToolAnswer {
    /// The value of an expression, written with four decimals.
    Value(String),
    /// How the first value stands to the second, as total order has it.
    Compared(Comparison),
    /// The results of a search.
    Found(Vec<SearchResult>),
    /// The text of a page, or what the Python broker sent back.
    Text(String),
    /// The whole dialogue of an agent after its reply, and the chat it is kept in.
    AgentReplied { context: WholeContext, chat_id: usize },
    /// The work failed; for a comparison, on its first expression.
    Failed(String),
    /// A comparison failed on its second expression.
    SecondFailed(String),
}

/// The mathematical value of a [`ToolAnswer`].
pub enum ToolAnswerView {
    Value(Seq<char>),
    Compared(Comparison),
    Found(Seq<SearchResultView>),
    Text(Seq<char>),
    AgentReplied { context: Seq<PartView>, chat_id: usize },
    Failed(Seq<char>),
    SecondFailed(Seq<char>),
}

impl View for ToolAnswer {
    type V = ToolAnswerView;

    open spec fn view(&self) -> ToolAnswerView {
        match self {
            ToolAnswer::Value(v) => ToolAnswerView::Value(v@),
            ToolAnswer::Compared(c) => ToolAnswerView::Compared(*c),
            ToolAnswer::Found(results) => ToolAnswerView::Found(result_views(results@)),
            ToolAnswer::Text(t) => ToolAnswerView::Text(t@),
            ToolAnswer::AgentReplied { context, chat_id } => ToolAnswerView::AgentReplied {
                context: context@,
                chat_id: *chat_id,
            },
            ToolAnswer::Failed(m) => ToolAnswerView::Failed(m@),
            ToolAnswer::SecondFailed(m) => ToolAnswerView::SecondFailed(m@),
        }
    }
}

/// The values of a sequence of answers.
pub open spec fn answer_views(answers: Seq<ToolAnswer>) -> Seq<ToolAnswerView> {
    answers.map_values(|a: ToolAnswer| a@)
}

/// The actions that take their input line by line.
#[derive(Clone, Copy, PartialEq, Eq, Structural, Debug)]
pub enum LineAction {
    Compute,
    Check,
    Search,
    Open,
}

/// What a line of input asks for.
#[derive(PartialEq, Eq, Debug)]
pub enum LineStep {
    /// Nothing: the line is passed over.
    Skip,
    /// The line cannot be used.
    Fail(ProximaToolCallError),
    /// Work outside.
    Ask(ToolRequest),
}

/// The mathematical value of a [`LineStep`].
pub enum LineStepView {
    Skip,
    Fail(ProximaToolCallErrorView),
    Ask(ToolRequestView),
}

impl View for LineStep {
    type V = LineStepView;

    open spec fn view(&self) -> LineStepView {
        match self {
            LineStep::Skip => LineStepView::Skip,
            LineStep::Fail(e) => LineStepView::Fail(e@),
            LineStep::Ask(r) => LineStepView::Ask(r@),
        }
    }
}

/// The sign that a line of a check compares by, with the outcome it asks
/// for: the first of `>`, `<` and `=` that occurs in the line.
pub open spec fn comparator_of(line: Seq<char>) -> Option<(char, Comparison)> {
    if first_index_of(line, '>') < line.len() {
        Some(('>', Comparison::Greater))
    } else if first_index_of(line, '<') < line.len() {
        Some(('<', Comparison::Less))
    } else if first_index_of(line, '=') < line.len() {
        Some(('=', Comparison::Equal))
    } else {
        None
    }
}

/// The error of a call with the wrong number of arguments.
pub open spec fn bad_arguments(expected: usize, found: usize, remarks: Seq<char>)
    -> ProximaToolCallErrorView {
    ProximaToolCallErrorView::Parsing(
        ToolParsingErrorView::BadNumberOfArguments { expected, found, remarks },
    )
}

/// The error of an answer that is not of the kind that was asked for.
pub open spec fn unexpected_answer() -> ProximaToolCallErrorView {
    ProximaToolCallErrorView::Network("Unexpected answer"@)
}

/// The query of a search line: its words after the first, one space
/// between each two, without double quotes around the whole.
pub open spec fn query_of(line_words: Seq<Seq<char>>) -> Seq<char> {
    trim_char(trim(join(line_words.skip(1), " "@)), '"')
}

/// What the line `line` of the input of `action` asks for.
pub open spec fn line_step(action: LineAction, line: Seq<char>) -> LineStepView {
    match action {
        LineAction::Compute => LineStepView::Ask(ToolRequestView::Evaluate(line)),
        LineAction::Check => match comparator_of(line) {
            Some((sign, _)) => {
                let pieces = split(line, sign);
                if pieces.len() == 2 {
                    LineStepView::Ask(ToolRequestView::Compare(trim(pieces[0]), trim(pieces[1])))
                } else {
                    LineStepView::Fail(
                        bad_arguments(
                            2,
                            pieces.len() as usize,
                            "You must provide only 2 expressions to compare"@,
                        ),
                    )
                }
            },
            None => LineStepView::Skip,
        },
        LineAction::Search => {
            let w = words(line);
            if w.len() >= 2 {
                match parse_count(w[0]) {
                    Some(n) => LineStepView::Ask(
                        ToolRequestView::Search {
                            results: if n < 20 {
                                n
                            } else {
                                20
                            },
                            query: query_of(w),
                        },
                    ),
                    None => LineStepView::Fail(
                        bad_arguments(1, 0, "The first argument on each line must be "@),
                    ),
                }
            } else {
                LineStepView::Fail(
                    bad_arguments(
                        2,
                        1,
                        "a query has 2 arguments, the number of results and the text of the query itself"@,
                    ),
                )
            }
        },
        LineAction::Open => LineStepView::Ask(ToolRequestView::Open(line)),
    }
}

/// How the results of a search are written out.
pub open spec fn results_text(results: Seq<SearchResultView>) -> Seq<char>
    decreases results.len(),
{
    if results.len() == 0 {
        Seq::empty()
    } else {
        results_text(results.drop_last()) + "Title: "@ + results.last().title + "\nURL: "@
            + results.last().url + "\nSnippet: "@ + results.last().snippet
            + "\n-----------------\n"@
    }
}

/// What the answer `answer` adds to the output for the line `line` of the
/// input of `action`, or the error that it ends the call with.
pub open spec fn line_output(action: LineAction, line: Seq<char>, answer: ToolAnswerView)
    -> Result<Seq<char>, ProximaToolCallErrorView> {
    match action {
        LineAction::Compute => match answer {
            ToolAnswerView::Value(value) => Ok(trim(line + " = "@ + value + "\n"@)),
            ToolAnswerView::Failed(issue) => Err(
                ProximaToolCallErrorView::Parsing(
                    ToolParsingErrorView::IncorrectExpression { expression: line, issue },
                ),
            ),
            _ => Err(unexpected_answer()),
        },
        LineAction::Check => match comparator_of(line) {
            Some((sign, wanted)) => match answer {
                ToolAnswerView::Compared(found) => Ok(
                    trim(
                        line + if found == wanted {
                            " -> TRUE\n"@
                        } else {
                            " -> FALSE\n"@
                        },
                    ),
                ),
                ToolAnswerView::Failed(issue) => Err(
                    ProximaToolCallErrorView::Parsing(
                        ToolParsingErrorView::IncorrectExpression {
                            expression: trim(split(line, sign)[0]),
                            issue,
                        },
                    ),
                ),
                ToolAnswerView::SecondFailed(issue) => if split(line, sign).len() > 1 {
                    Err(
                        ProximaToolCallErrorView::Parsing(
                            ToolParsingErrorView::IncorrectExpression {
                                expression: trim(split(line, sign)[1]),
                                issue,
                            },
                        ),
                    )
                } else {
                    Err(unexpected_answer())
                },
                _ => Err(unexpected_answer()),
            },
            None => Err(unexpected_answer()),
        },
        LineAction::Search => match answer {
            ToolAnswerView::Found(results) => if results.len() > 0 {
                Ok("Query: "@ + line + "\n#####\n"@ + results_text(results))
            } else {
                Err(
                    ProximaToolCallErrorView::WebError(
                        "There are no answers to your query, this is highly likely to be a result of exceeding search rate limits. Do not use the search tool again in this chat and say it to the user in order to set correct expectations for information quality."@,
                    ),
                )
            },
            ToolAnswerView::Failed(message) => Err(ProximaToolCallErrorView::WebError(message)),
            _ => Err(unexpected_answer()),
        },
        LineAction::Open => match answer {
            ToolAnswerView::Text(body) => Ok(line + " : ```"@ + body + "```\n"@),
            ToolAnswerView::Failed(message) => Err(ProximaToolCallErrorView::WebError(message)),
            _ => Err(unexpected_answer()),
        },
    }
}

/// How far a call has come with the answers it was given.
pub enum LinesOutcome {
    /// It needs this work done outside.
    Needs(ToolRequestView),
    /// It is over, with this output or error, after so many answers.
    Done(Result<Seq<char>, ProximaToolCallErrorView>, nat),
}

/// How far the lines from `i` on come with the answers from `a` on, after
/// the lines before have given `output`: each line in turn is passed over,
/// ends the call with an error, or takes the next answer; the first line
/// that finds no answer left says what is needed.
pub open spec fn run_lines(
    action: LineAction,
    lines: Seq<Seq<char>>,
    answers: Seq<ToolAnswerView>,
    i: nat,
    a: nat,
    output: Seq<char>,
) -> LinesOutcome
    decreases lines.len() - i,
{
    if i >= lines.len() {
        LinesOutcome::Done(Ok(output), a)
    } else {
        match line_step(action, lines[i as int]) {
            LineStepView::Skip => run_lines(action, lines, answers, i + 1, a, output),
            LineStepView::Fail(error) => LinesOutcome::Done(Err(error), a),
            LineStepView::Ask(request) => if a >= answers.len() {
                LinesOutcome::Needs(request)
            } else {
                match line_output(action, lines[i as int], answers[a as int]) {
                    Ok(text) => run_lines(action, lines, answers, i + 1, a + 1, output + text),
                    Err(error) => LinesOutcome::Done(Err(error), a + 1),
                }
            },
        }
    }
}

fn bad_arguments_error(expected: usize, found: usize, remarks: &str) -> (r: ProximaToolCallError)
    ensures
        r@ == bad_arguments(expected, found, remarks@),
{
    ProximaToolCallError::Parsing(
        ToolParsingError::BadNumberOfArguments { expected, found, remarks: remarks.to_string() },
    )
}

fn unexpected_answer_error() -> (r: ProximaToolCallError)
    ensures
        r@ == unexpected_answer(),
{
    ProximaToolCallError::Network("Unexpected answer".to_string())
}

fn incorrect_expression(expression: String, issue: &String) -> (r: ProximaToolCallError)
    ensures
        r@ == ProximaToolCallErrorView::Parsing(
            ToolParsingErrorView::IncorrectExpression { expression: expression@, issue: issue@ },
        ),
{
    ProximaToolCallError::Parsing(
        ToolParsingError::IncorrectExpression { expression, issue: issue.clone() },
    )
}

/// The sign that a line of a check compares by, with the outcome it asks for.
pub fn find_comparator(line: &String) -> (r: Option<(char, Comparison)>)
    ensures
        r == comparator_of(line@),
{
    if contains_char(line.as_str(), '>') {
        Some(('>', Comparison::Greater))
    } else if contains_char(line.as_str(), '<') {
        Some(('<', Comparison::Less))
    } else if contains_char(line.as_str(), '=') {
        Some(('=', Comparison::Equal))
    } else {
        None
    }
}

/// What the line `line` of the input of `action` asks for.
pub fn plan_line(action: LineAction, line: &String) -> (r: LineStep)
    ensures
        r@ == line_step(action, line@),
{
    match action {
        LineAction::Compute => LineStep::Ask(ToolRequest::Evaluate(line.clone())),
        LineAction::Check => match find_comparator(line) {
            Some((sign, _)) => {
                let pieces = split_text(line.as_str(), sign);
                if pieces.len() == 2 {
                    let left = trim_text(pieces[0].as_str());
                    let right = trim_text(pieces[1].as_str());
                    proof {
                        assert(text_views(pieces@)[0] == pieces@[0]@);
                        assert(text_views(pieces@)[1] == pieces@[1]@);
                    }
                    LineStep::Ask(ToolRequest::Compare(left, right))
                } else {
                    LineStep::Fail(
                        bad_arguments_error(
                            2,
                            pieces.len(),
                            "You must provide only 2 expressions to compare",
                        ),
                    )
                }
            },
            None => LineStep::Skip,
        },
        LineAction::Search => {
            let w = words_of(line.as_str());
            if w.len() >= 2 {
                proof {
                    assert(text_views(w@)[0] == w@[0]@);
                }
                match parse_count_text(w[0].as_str()) {
                    Some(n) => {
                        let joined = join_from(&w, 1, " ");
                        let trimmed = trim_text(joined.as_str());
                        let query = trim_char_text(trimmed.as_str(), '"');
                        LineStep::Ask(
                            ToolRequest::Search {
                                results: if n < 20 {
                                    n
                                } else {
                                    20
                                },
                                query,
                            },
                        )
                    },
                    None => LineStep::Fail(
                        bad_arguments_error(1, 0, "The first argument on each line must be "),
                    ),
                }
            } else {
                LineStep::Fail(
                    bad_arguments_error(
                        2,
                        1,
                        "a query has 2 arguments, the number of results and the text of the query itself",
                    ),
                )
            }
        },
        LineAction::Open => LineStep::Ask(ToolRequest::Open(line.clone())),
    }
}

fn results_to_text(results: &Vec<SearchResult>) -> (r: String)
    ensures
        r@ == results_text(result_views(results@)),
{
    let mut r = String::new();
    let ghost all = result_views(results@);
    let mut i: usize = 0;
    while i < results.len()
        invariant
            i <= results.len(),
            all == result_views(results@),
            r@ == results_text(all.take(i as int)),
        decreases results.len() - i,
    {
        proof {
            assert(all.take(i + 1).drop_last() =~= all.take(i as int));
            assert(all.take(i + 1).last() == results@[i as int]@);
        }
        r.append("Title: ");
        r.append(results[i].title.as_str());
        r.append("\nURL: ");
        r.append(results[i].url.as_str());
        r.append("\nSnippet: ");
        r.append(results[i].snippet.as_str());
        r.append("\n-----------------\n");
        i += 1;
    }
    proof {
        assert(all.take(results.len() as int) =~= all);
    }
    r
}

/// What `answer` adds to the output for the line `line` of the input of
/// `action`, or the error that it ends the call with.
pub fn absorb_answer(action: LineAction, line: &String, answer: &ToolAnswer) -> (r: Result<
    String,
    ProximaToolCallError,
>)
    ensures
        match r {
            Ok(text) => line_output(action, line@, answer@) == Ok::<
                Seq<char>,
                ProximaToolCallErrorView,
            >(text@),
            Err(error) => line_output(action, line@, answer@) == Err::<
                Seq<char>,
                ProximaToolCallErrorView,
            >(error@),
        },
{
    match action {
        LineAction::Compute => match answer {
            ToolAnswer::Value(value) => {
                let text = line.clone().concat(" = ").concat(value.as_str()).concat("\n");
                Ok(trim_text(text.as_str()))
            },
            ToolAnswer::Failed(issue) => Err(incorrect_expression(line.clone(), issue)),
            _ => Err(unexpected_answer_error()),
        },
        LineAction::Check => match find_comparator(line) {
            Some((sign, wanted)) => match answer {
                ToolAnswer::Compared(found) => {
                    let text = if *found == wanted {
                        line.clone().concat(" -> TRUE\n")
                    } else {
                        line.clone().concat(" -> FALSE\n")
                    };
                    Ok(trim_text(text.as_str()))
                },
                ToolAnswer::Failed(issue) => {
                    let pieces = split_text(line.as_str(), sign);
                    proof {
                        assert(split(line@, sign).len() > 0);
                        assert(text_views(pieces@)[0] == pieces@[0]@);
                    }
                    Err(incorrect_expression(trim_text(pieces[0].as_str()), issue))
                },
                ToolAnswer::SecondFailed(issue) => {
                    let pieces = split_text(line.as_str(), sign);
                    if pieces.len() > 1 {
                        proof {
                            assert(text_views(pieces@)[1] == pieces@[1]@);
                        }
                        Err(incorrect_expression(trim_text(pieces[1].as_str()), issue))
                    } else {
                        Err(unexpected_answer_error())
                    }
                },
                _ => Err(unexpected_answer_error()),
            },
            None => Err(unexpected_answer_error()),
        },
        LineAction::Search => match answer {
            ToolAnswer::Found(results) => if results.len() > 0 {
                Ok(
                    "Query: ".to_string().concat(line.as_str()).concat("\n#####\n").concat(
                        results_to_text(results).as_str(),
                    ),
                )
            } else {
                Err(
                    ProximaToolCallError::WebError(
                        "There are no answers to your query, this is highly likely to be a result of exceeding search rate limits. Do not use the search tool again in this chat and say it to the user in order to set correct expectations for information quality.".to_string(),
                    ),
                )
            },
            ToolAnswer::Failed(message) => Err(ProximaToolCallError::WebError(message.clone())),
            _ => Err(unexpected_answer_error()),
        },
        LineAction::Open => match answer {
            ToolAnswer::Text(body) => Ok(
                line.clone().concat(" : ```").concat(body.as_str()).concat("```\n"),
            ),
            ToolAnswer::Failed(message) => Err(ProximaToolCallError::WebError(message.clone())),
            _ => Err(unexpected_answer_error()),
        },
    }
}

/// How far a call has come with the answers it was given.
#[derive(PartialEq, Eq, Debug)]
pub enum LinesProgress {
    /// It needs this work done outside.
    Needs(ToolRequest),
    /// It is over, with this output or error, after so many answers.
    Done(Result<String, ProximaToolCallError>, usize),
}

impl View for LinesProgress {
    type V = LinesOutcome;

    open spec fn view(&self) -> LinesOutcome {
        match self {
            LinesProgress::Needs(request) => LinesOutcome::Needs(request@),
            LinesProgress::Done(Ok(text), used) => LinesOutcome::Done(Ok(text@), *used as nat),
            LinesProgress::Done(Err(error), used) => LinesOutcome::Done(Err(error@), *used as nat),
        }
    }
}

/// Runs the lines of the input of `action` with the answers from `from` on.
pub fn run_lines_with(
    action: LineAction,
    lines: &Vec<String>,
    answers: &Vec<ToolAnswer>,
    from: usize,
) -> (r: LinesProgress)
    requires
        from <= answers.len(),
    ensures
        r@ == run_lines(
            action,
            text_views(lines@),
            answer_views(answers@).skip(from as int),
            0,
            0,
            Seq::empty(),
        ),
        match r {
            LinesProgress::Done(_, used) => from + used <= answers.len(),
            _ => true,
        },
{
    let ghost all = text_views(lines@);
    let ghost given = answer_views(answers@).skip(from as int);
    let mut output = String::new();
    let mut i: usize = 0;
    let mut a: usize = 0;
    while i < lines.len()
        invariant
            i <= lines.len(),
            from + a <= answers.len(),
            all == text_views(lines@),
            given == answer_views(answers@).skip(from as int),
            run_lines(action, all, given, 0, 0, Seq::empty()) == run_lines(
                action,
                all,
                given,
                i as nat,
                a as nat,
                output@,
            ),
        decreases lines.len() - i,
    {
        proof {
            assert(all[i as int] == lines@[i as int]@);
        }
        match plan_line(action, &lines[i]) {
            LineStep::Skip => {},
            LineStep::Fail(error) => {
                return LinesProgress::Done(Err(error), a);
            },
            LineStep::Ask(request) => {
                if from + a >= answers.len() {
                    return LinesProgress::Needs(request);
                }
                proof {
                    assert(given[a as int] == answers@[from + a]@);
                }
                match absorb_answer(action, &lines[i], &answers[from + a]) {
                    Ok(text) => {
                        output.append(text.as_str());
                        a += 1;
                    },
                    Err(error) => {
                        return LinesProgress::Done(Err(error), a + 1);
                    },
                }
            },
        }
        i += 1;
    }
    LinesProgress::Done(Ok(output), a)
}

/// How far a call of a tool has come with the answers it was given.
#[derive(PartialEq, Eq, Debug)]
pub enum ToolOutcome {
    /// It needs this work done outside.
    Needs(ToolRequest),
    /// It is over after so many answers: with the output and, where the
    /// tool keeps data, the data as it is afterwards, or with an error.
    Finished(Result<(ContextData, Option<ProximaToolData>), ProximaToolCallError>, usize),
}

/// The mathematical value of a [`ToolOutcome`].
pub enum ToolOutcomeView {
    Needs(ToolRequestView),
    Finished(Result<(ContextDataView, Option<ProximaToolDataView>), ProximaToolCallErrorView>, nat),
}

impl View for ToolOutcome {
    type V = ToolOutcomeView;

    open spec fn view(&self) -> ToolOutcomeView {
        match self {
            ToolOutcome::Needs(request) => ToolOutcomeView::Needs(request@),
            ToolOutcome::Finished(Ok((data, kept)), used) => ToolOutcomeView::Finished(
                Ok(
                    (
                        data@,
                        match kept {
                            Some(k) => Some(k@),
                            None => None,
                        },
                    ),
                ),
                *used as nat,
            ),
            ToolOutcome::Finished(Err(error), used) => ToolOutcomeView::Finished(
                Err(error@),
                *used as nat,
            ),
        }
    }
}

impl ToolOutcome {
    /// Whether the call, where it is over, has used at most `given` answers.
    pub open spec fn within(self, given: int) -> bool {
        match self {
            ToolOutcome::Finished(_, used) => used <= given,
            ToolOutcome::Needs(_) => true,
        }
    }
}

/// The outcome of a call that ends with the output `output` and leaves the
/// data of its tool as it was.
pub open spec fn finished_output(
    tool: Seq<char>,
    action: Seq<char>,
    output: Seq<char>,
    used: nat,
) -> ToolOutcomeView {
    ToolOutcomeView::Finished(
        Ok((ContextDataView::Text(call_output_text(tool, action, output)), None)),
        used,
    )
}

/// The outcome of a line-by-line action of the tool called `tool`.
pub open spec fn lines_outcome(
    tool: Seq<char>,
    name: Seq<char>,
    action: LineAction,
    lines: Seq<Seq<char>>,
    answers: Seq<ToolAnswerView>,
    none_given: Seq<char>,
) -> ToolOutcomeView {
    if lines.len() >= 1 {
        match run_lines(action, lines, answers, 0, 0, Seq::empty()) {
            LinesOutcome::Needs(request) => ToolOutcomeView::Needs(request),
            LinesOutcome::Done(Ok(output), used) => finished_output(tool, name, output, used),
            LinesOutcome::Done(Err(error), used) => ToolOutcomeView::Finished(Err(error), used),
        }
    } else {
        ToolOutcomeView::Finished(Err(bad_arguments(1, 0, none_given)), 0)
    }
}

/// The tools that `names` name, where each is a tool that may be given to
/// an agent; `None` where one is not.
pub open spec fn agent_tools(names: Seq<Seq<char>>, allocatable: Seq<ProximaTool>) -> Option<
    Seq<ProximaTool>,
>
    decreases names.len(),
{
    if names.len() == 0 {
        Some(Seq::empty())
    } else {
        match (agent_tools(names.drop_last(), allocatable), tool_named(names.last())) {
            (Some(tools), Some(tool)) => if allocatable.contains(tool) {
                Some(tools.push(tool))
            } else {
                None
            },
            _ => None,
        }
    }
}

/// The tools that the line `line` of an agent's input asks for: none for an
/// empty line, else the tools named between its commas.
pub open spec fn agent_tools_of_line(line: Seq<char>, allocatable: Seq<ProximaTool>) -> Option<
    Seq<ProximaTool>,
> {
    if line.len() == 0 {
        Some(Seq::empty())
    } else {
        agent_tools(split(line, ','), allocatable)
    }
}

/// What stands between the first `<response>` of `text` and the first
/// `</response>` after it; all after the first `<response>` where no
/// `</response>` follows, and all of `text` where it holds no `<response>`.
pub open spec fn response_body(text: Seq<char>) -> Seq<char> {
    let open = "<response>"@;
    let close = "</response>"@;
    let a = first_match(text, open);
    if 0 <= a && a + open.len() <= text.len() {
        let rest = text.skip(a + open.len());
        let b = first_match(rest, close);
        if 0 <= b <= rest.len() {
            rest.take(b)
        } else {
            rest
        }
    } else {
        text
    }
}

/// What an agent answered: the response of the last fragment of its dialogue.
pub open spec fn agent_reply_text(context: Seq<PartView>) -> Seq<char> {
    if context.len() > 0 {
        response_body(context.last().text())
    } else {
        Seq::empty()
    }
}

/// The outcome of a call of an agent once the work outside is done.
pub open spec fn agent_outcome(
    action: Seq<char>,
    name: Seq<char>,
    answers: Seq<ToolAnswerView>,
    request: ToolRequestView,
    registry: AgentRegistryView,
    record: AgentRecordView,
    counter: usize,
) -> ToolOutcomeView {
    if answers.len() == 0 {
        ToolOutcomeView::Needs(request)
    } else {
        match answers[0] {
            ToolAnswerView::AgentReplied { context, chat_id } => ToolOutcomeView::Finished(
                Ok(
                    (
                        ContextDataView::Text(
                            call_output_text(
                                "Agent"@,
                                action,
                                name + "\n"@ + agent_reply_text(context),
                            ),
                        ),
                        Some(
                            ProximaToolDataView::Agent(
                                AgentRegistryView {
                                    agents: agents_with(
                                        registry.agents,
                                        AgentRecordView { chat_id, ..record },
                                    ),
                                    counter,
                                    allocatable_tools: registry.allocatable_tools,
                                },
                            ),
                        ),
                    ),
                ),
                1,
            ),
            ToolAnswerView::Failed(message) => ToolOutcomeView::Finished(
                Err(ProximaToolCallErrorView::Network(message)),
                1,
            ),
            _ => ToolOutcomeView::Finished(Err(unexpected_answer()), 1),
        }
    }
}

/// The error of a name that is not what was asked for.
pub open spec fn bad_name(expected: Seq<char>, found: Seq<char>) -> ProximaToolCallErrorView {
    ProximaToolCallErrorView::Parsing(ToolParsingErrorView::BadElementName { expected, found })
}

/// How far the call of `tool` with `action` and `input` comes with the
/// answers `answers`, the tool keeping `data`.
pub open spec fn responded(
    tool: ProximaTool,
    action: Seq<char>,
    input: Seq<char>,
    data: Option<ProximaToolDataView>,
    answers: Seq<ToolAnswerView>,
) -> ToolOutcomeView {
    let lines = trimmed_lines(input);
    let verb = trim(action);
    match tool {
        ProximaTool::LocalMemory => {
            let entries = match data {
                Some(ProximaToolDataView::LocalMemory(e)) => e,
                _ => Seq::empty(),
            };
            if verb == "remove"@ {
                if lines.len() == 1 {
                    ToolOutcomeView::Finished(
                        Ok(
                            (
                                ContextDataView::Text(
                                    call_output_text("Local Memory"@, verb, Seq::empty()),
                                ),
                                Some(
                                    ProximaToolDataView::LocalMemory(
                                        memory_without(entries, lines[0]),
                                    ),
                                ),
                            ),
                        ),
                        0,
                    )
                } else {
                    ToolOutcomeView::Finished(
                        Err(
                            bad_arguments(
                                1,
                                lines.len() as usize,
                                "The first input line contains the key, there are no other lines"@,
                            ),
                        ),
                        0,
                    )
                }
            } else {
                if lines.len() >= 2 {
                    ToolOutcomeView::Finished(
                        Ok(
                            (
                                ContextDataView::Text(
                                    call_output_text("Local Memory"@, verb, Seq::empty()),
                                ),
                                Some(
                                    ProximaToolDataView::LocalMemory(
                                        memory_put(entries, lines[0], join(lines.skip(1), "\n"@)),
                                    ),
                                ),
                            ),
                        ),
                        0,
                    )
                } else {
                    ToolOutcomeView::Finished(
                        Err(
                            bad_arguments(
                                2,
                                lines.len() as usize,
                                "The first input line contains the key, all the rest contain the value assigned to that key"@,
                            ),
                        ),
                        0,
                    )
                }
            }
        },
        ProximaTool::Calculator => if verb == "compute"@ {
            lines_outcome(
                "Calculator"@,
                verb,
                LineAction::Compute,
                lines,
                answers,
                "You must provide at least 1 expression to compute"@,
            )
        } else {
            lines_outcome(
                "Calculator"@,
                verb,
                LineAction::Check,
                lines,
                answers,
                "You must provide at least 1 line of expressions to check"@,
            )
        },
        ProximaTool::Web => if verb == "search"@ {
            lines_outcome(
                "Web"@,
                verb,
                LineAction::Search,
                lines,
                answers,
                "You must provide at least 1 query to search"@,
            )
        } else {
            lines_outcome(
                "Web"@,
                verb,
                LineAction::Open,
                lines,
                answers,
                "You must provide at least 1 website to open"@,
            )
        },
        ProximaTool::Python => if answers.len() == 0 {
            ToolOutcomeView::Needs(ToolRequestView::Python { mode: action, data: input })
        } else {
            match answers[0] {
                ToolAnswerView::Text(reply) => finished_output(
                    "Python"@,
                    action,
                    python_output(reply),
                    1,
                ),
                ToolAnswerView::Failed(message) => ToolOutcomeView::Finished(
                    Err(ProximaToolCallErrorView::Network(message)),
                    1,
                ),
                _ => ToolOutcomeView::Finished(Err(unexpected_answer()), 1),
            }
        },
        ProximaTool::Agent => {
            let registry = match data {
                Some(ProximaToolDataView::Agent(r)) => r,
                _ => AgentRegistryView {
                    agents: Seq::empty(),
                    counter: 0,
                    allocatable_tools: Seq::empty(),
                },
            };
            if verb == "run"@ {
                if lines.len() >= 4 {
                    match agent_tools_of_line(lines[2], registry.allocatable_tools) {
                        Some(tools) => agent_outcome(
                            verb,
                            lines[0],
                            answers,
                            ToolRequestView::StartAgent {
                                name: lines[0],
                                model: lines[1],
                                tools,
                                prompt: join(lines.skip(3), "\n"@),
                            },
                            registry,
                            AgentRecordView {
                                name: lines[0],
                                model: lines[1],
                                allowed_tools: tools,
                                status: AgentStatus::Standby,
                                chat_id: 0,
                            },
                            if registry.counter < usize::MAX {
                                (registry.counter + 1) as usize
                            } else {
                                registry.counter
                            },
                        ),
                        None => ToolOutcomeView::Finished(
                            Err(bad_name("an allocatable tool"@, lines[2])),
                            0,
                        ),
                    }
                } else {
                    ToolOutcomeView::Finished(
                        Err(
                            bad_arguments(
                                4,
                                lines.len() as usize,
                                "The input lines are the name of the agent, its model, its tools and then the prompt"@,
                            ),
                        ),
                        0,
                    )
                }
            } else {
                if lines.len() >= 2 {
                    let k = agent_find(registry.agents, lines[0]);
                    if 0 <= k < registry.agents.len() {
                        agent_outcome(
                            verb,
                            lines[0],
                            answers,
                            ToolRequestView::ContinueAgent {
                                chat_id: registry.agents[k].chat_id,
                                prompt: join(lines.skip(1), "\n"@),
                            },
                            registry,
                            AgentRecordView { status: AgentStatus::Standby, ..registry.agents[k] },
                            registry.counter,
                        )
                    } else {
                        ToolOutcomeView::Finished(
                            Err(bad_name("the name of an agent"@, lines[0])),
                            0,
                        )
                    }
                } else {
                    ToolOutcomeView::Finished(
                        Err(
                            bad_arguments(
                                2,
                                lines.len() as usize,
                                "The first input line is the name of the agent, the rest is the message to it"@,
                            ),
                        ),
                        0,
                    )
                }
            }
        },
    }
}

/// Whether what a call leaves its tool to keep is in order.
pub open spec fn outcome_data_ok(outcome: ToolOutcomeView) -> bool {
    match outcome {
        ToolOutcomeView::Finished(Ok((_, Some(data))), _) => data.wf(),
        _ => true,
    }
}

/// The answer of an agent leaves a registry without a name twice so.
pub proof fn lemma_agent_outcome_ok(
    action: Seq<char>,
    name: Seq<char>,
    answers: Seq<ToolAnswerView>,
    request: ToolRequestView,
    registry: AgentRegistryView,
    record: AgentRecordView,
    counter: usize,
)
    requires
        agent_names_unique(registry.agents),
    ensures
        outcome_data_ok(agent_outcome(action, name, answers, request, registry, record, counter)),
{
    if answers.len() > 0 {
        match answers[0] {
            ToolAnswerView::AgentReplied { context, chat_id } => {
                lemma_agents_stay_unique(registry.agents, AgentRecordView { chat_id, ..record });
            },
            _ => {},
        }
    }
}

/// Whatever a tool is called with, it leaves data that is in order in
/// order: a memory holds no key twice and a registry no name twice after
/// the call, where they held none before.
pub proof fn lemma_call_keeps_data_ok(
    tool: ProximaTool,
    action: Seq<char>,
    input: Seq<char>,
    data: Option<ProximaToolDataView>,
    answers: Seq<ToolAnswerView>,
)
    requires
        match data {
            Some(d) => d.wf(),
            None => true,
        },
    ensures
        outcome_data_ok(responded(tool, action, input, data, answers)),
{
    let lines = trimmed_lines(input);
    let verb = trim(action);
    match tool {
        ProximaTool::LocalMemory => {
            let entries = match data {
                Some(ProximaToolDataView::LocalMemory(e)) => e,
                _ => Seq::empty(),
            };
            lemma_memory_stays_unique(entries, lines[0], join(lines.skip(1), "\n"@));
        },
        ProximaTool::Agent => {
            let registry = match data {
                Some(ProximaToolDataView::Agent(r)) => r,
                _ => AgentRegistryView {
                    agents: Seq::empty(),
                    counter: 0,
                    allocatable_tools: Seq::empty(),
                },
            };
            if verb == "run"@ {
                if lines.len() >= 4 {
                    match agent_tools_of_line(lines[2], registry.allocatable_tools) {
                        Some(tools) => {
                            lemma_agent_outcome_ok(
                                verb,
                                lines[0],
                                answers,
                                ToolRequestView::StartAgent {
                                    name: lines[0],
                                    model: lines[1],
                                    tools,
                                    prompt: join(lines.skip(3), "\n"@),
                                },
                                registry,
                                AgentRecordView {
                                    name: lines[0],
                                    model: lines[1],
                                    allowed_tools: tools,
                                    status: AgentStatus::Standby,
                                    chat_id: 0,
                                },
                                if registry.counter < usize::MAX {
                                    (registry.counter + 1) as usize
                                } else {
                                    registry.counter
                                },
                            );
                        },
                        None => {},
                    }
                }
            } else if lines.len() >= 2 {
                let k = agent_find(registry.agents, lines[0]);
                if 0 <= k < registry.agents.len() {
                    lemma_agent_outcome_ok(
                        verb,
                        lines[0],
                        answers,
                        ToolRequestView::ContinueAgent {
                            chat_id: registry.agents[k].chat_id,
                            prompt: join(lines.skip(1), "\n"@),
                        },
                        registry,
                        AgentRecordView { status: AgentStatus::Standby, ..registry.agents[k] },
                        registry.counter,
                    );
                }
            }
        },
        _ => {},
    }
}

/// The tools that the line `line` of an agent's input asks for.
pub fn resolve_agent_tools(line: &String, allocatable: &Vec<ProximaTool>) -> (r: Option<
    Vec<ProximaTool>,
>)
    ensures
        match r {
            Some(tools) => agent_tools_of_line(line@, allocatable@) == Some(tools@),
            None => agent_tools_of_line(line@, allocatable@) is None,
        },
{
    let mut tools: Vec<ProximaTool> = Vec::new();
    if line.as_str().unicode_len() == 0 {
        return Some(tools);
    }
    let names = split_text(line.as_str(), ',');
    let ghost all = text_views(names@);
    let mut i: usize = 0;
    proof {
        assert(all.take(0).len() == 0);
    }
    while i < names.len()
        invariant
            i <= names.len(),
            all == text_views(names@),
            all == split(line@, ','),
            line@.len() > 0,
            agent_tools(all.take(i as int), allocatable@) == Some(tools@),
        decreases names.len() - i,
    {
        proof {
            assert(all.take(i + 1).drop_last() =~= all.take(i as int));
            assert(all.take(i + 1).last() == names@[i as int]@);
        }
        match ProximaTool::try_from_string(names[i].clone()) {
            Some(tool) => {
                let mut found = false;
                let mut j: usize = 0;
                while j < allocatable.len()
                    invariant
                        j <= allocatable.len(),
                        found == exists|k: int| 0 <= k < j && allocatable@[k] == tool,
                    decreases allocatable.len() - j,
                {
                    if allocatable[j] == tool {
                        found = true;
                    }
                    j += 1;
                }
                if !found {
                    proof {
                        assert(!allocatable@.contains(tool));
                        assert(agent_tools(all.take(i + 1), allocatable@) is None);
                        lemma_agent_tools_fail(all, allocatable@, i + 1);
                        assert(all.take(names.len() as int) =~= all);
                    }
                    return None;
                }
                proof {
                    assert(allocatable@.contains(tool));
                }
                tools.push(tool);
            },
            None => {
                proof {
                    assert(agent_tools(all.take(i + 1), allocatable@) is None);
                    lemma_agent_tools_fail(all, allocatable@, i + 1);
                    assert(all.take(names.len() as int) =~= all);
                }
                return None;
            },
        }
        i += 1;
    }
    proof {
        assert(all.take(names.len() as int) =~= all);
    }
    Some(tools)
}

proof fn lemma_agent_tools_fail(names: Seq<Seq<char>>, allocatable: Seq<ProximaTool>, k: int)
    requires
        0 <= k <= names.len(),
        agent_tools(names.take(k), allocatable) is None,
    ensures
        agent_tools(names, allocatable) is None,
    decreases names.len() - k,
{
    if k == names.len() {
        assert(names.take(k) =~= names);
    } else {
        assert(names.take(k + 1).drop_last() =~= names.take(k));
        lemma_agent_tools_fail(names, allocatable, k + 1);
    }
}

/// What stands between the first `<response>` of `text` and the first
/// `</response>` after it.
pub fn extract_response(text: &str) -> (r: String)
    ensures
        r@ == response_body(text@),
{
    let v = chars_of(text);
    let open = chars_of("<response>");
    let close = chars_of("</response>");
    proof {
        assert(v@.skip(0) =~= v@);
        crate::text::lemma_first_match_contains(v@, open@);
    }
    match find_text(&v, 0, &open) {
        Some(a) => {
            let start = a + open.len();
            proof {
                crate::text::lemma_first_match_contains(v@.skip(start as int), close@);
            }
            match find_text(&v, start, &close) {
                Some(b) => {
                    proof {
                        assert(v@.skip(start as int).take(b as int) =~= v@.subrange(
                            start as int,
                            start + b,
                        ));
                    }
                    string_of(&v, start, start + b)
                },
                None => {
                    proof {
                        assert(v@.skip(start as int) =~= v@.subrange(
                            start as int,
                            v.len() as int,
                        ));
                    }
                    string_of(&v, start, v.len())
                },
            }
        },
        None => {
            proof {
                assert(v@.subrange(0, v.len() as int) =~= v@);
            }
            string_of(&v, 0, v.len())
        },
    }
}

/// What an agent answered: the response of the last fragment of its dialogue.
pub fn agent_reply(context: &WholeContext) -> (r: String)
    ensures
        r@ == agent_reply_text(context@),
{
    let parts = context.get_parts();
    if parts.len() > 0 {
        let text = parts[parts.len() - 1].joined_text();
        extract_response(text.as_str())
    } else {
        String::new()
    }
}

/// The value of optional data.
pub open spec fn optional_data(data: Option<&ProximaToolData>) -> Option<ProximaToolDataView> {
    match data {
        Some(d) => Some(d@),
        None => None,
    }
}

/// Whether `data` is what `tool` keeps: a key-value memory for the local
/// memory, a registry for the agents; any for the tools that keep nothing.
pub open spec fn data_fits(tool: ProximaTool, data: Option<ProximaToolDataView>) -> bool {
    match tool {
        ProximaTool::LocalMemory => data matches Some(ProximaToolDataView::LocalMemory(_)),
        ProximaTool::Agent => data matches Some(ProximaToolDataView::Agent(_)),
        _ => true,
    }
}

fn finish_lines(tool: &str, name: String, progress: LinesProgress) -> (r: ToolOutcome)
    ensures
        r@ == match progress@ {
            LinesOutcome::Needs(request) => ToolOutcomeView::Needs(request),
            LinesOutcome::Done(Ok(output), used) => finished_output(tool@, name@, output, used),
            LinesOutcome::Done(Err(error), used) => ToolOutcomeView::Finished(Err(error), used),
        },
        match (r, progress) {
            (ToolOutcome::Finished(_, used), LinesProgress::Done(_, given)) => used == given,
            (ToolOutcome::Needs(_), LinesProgress::Needs(_)) => true,
            _ => false,
        },
{
    match progress {
        LinesProgress::Needs(request) => ToolOutcome::Needs(request),
        LinesProgress::Done(Ok(output), used) => ToolOutcome::Finished(
            Ok((generate_call_output(tool.to_string(), name, output), None)),
            used,
        ),
        LinesProgress::Done(Err(error), used) => ToolOutcome::Finished(Err(error), used),
    }
}

fn respond_lines(
    tool: &str,
    name: String,
    action: LineAction,
    lines: &Vec<String>,
    answers: &Vec<ToolAnswer>,
    from: usize,
    none_given: &str,
) -> (r: ToolOutcome)
    requires
        from <= answers.len(),
    ensures
        r@ == lines_outcome(
            tool@,
            name@,
            action,
            text_views(lines@),
            answer_views(answers@).skip(from as int),
            none_given@,
        ),
        r.within(answers.len() - from),
{
    if lines.len() >= 1 {
        finish_lines(tool, name, run_lines_with(action, lines, answers, from))
    } else {
        ToolOutcome::Finished(Err(bad_arguments_error(1, 0, none_given)), 0)
    }
}

fn respond_agent(
    verb: String,
    name: &String,
    answers: &Vec<ToolAnswer>,
    from: usize,
    request: ToolRequest,
    registry: &AgentRegistry,
    record: AgentRecord,
    counter: usize,
) -> (r: ToolOutcome)
    requires
        from <= answers.len(),
    ensures
        r@ == agent_outcome(
            verb@,
            name@,
            answer_views(answers@).skip(from as int),
            request@,
            registry@,
            record@,
            counter,
        ),
        r.within(answers.len() - from),
{
    if from >= answers.len() {
        return ToolOutcome::Needs(request);
    }
    proof {
        assert(answer_views(answers@).skip(from as int)[0] == answers@[from as int]@);
    }
    match &answers[from] {
        ToolAnswer::AgentReplied { context, chat_id } => {
            let mut after = registry.clone();
            let mut record = record;
            record.chat_id = *chat_id;
            after.put(record);
            after.counter = counter;
            let output = name.clone().concat("\n").concat(agent_reply(context).as_str());
            ToolOutcome::Finished(
                Ok(
                    (
                        generate_call_output("Agent".to_string(), verb, output),
                        Some(ProximaToolData::Agent(after)),
                    ),
                ),
                1,
            )
        },
        ToolAnswer::Failed(message) => ToolOutcome::Finished(
            Err(ProximaToolCallError::Network(message.clone())),
            1,
        ),
        _ => ToolOutcome::Finished(Err(unexpected_answer_error()), 1),
    }
}

impl ProximaTool {
    /// Runs the call of the tool with `action` and `input` as far as the
    /// answers from `from` on allow, the tool keeping `data`: says what work
    /// it needs done outside next, or ends with an output or an error.
    pub fn respond_to(
        &self,
        action: String,
        input: String,
        data: Option<&ProximaToolData>,
        answers: &Vec<ToolAnswer>,
        from: usize,
    ) -> (r: ToolOutcome)
        requires
            valid_action(*self, action@),
            data_fits(*self, optional_data(data)),
            from <= answers.len(),
        ensures
            r@ == responded(
                *self,
                action@,
                input@,
                optional_data(data),
                answer_views(answers@).skip(from as int),
            ),
            r.within(answers.len() - from),
    {
        let lines = trimmed_lines_of(input.as_str());
        let verb = trim_text(action.as_str());
        let ghost given = answer_views(answers@).skip(from as int);
        match self {
            ProximaTool::LocalMemory => {
                let mut entries = match data {
                    Some(ProximaToolData::LocalMemory(entries)) => clone_entries(entries),
                    _ => Vec::new(),
                };
                if same_text(verb.as_str(), "remove") {
                    if lines.len() == 1 {
                        proof {
                            assert(text_views(lines@)[0] == lines@[0]@);
                        }
                        remove_entry(&mut entries, &lines[0]);
                        ToolOutcome::Finished(
                            Ok(
                                (
                                    generate_call_output(
                                        "Local Memory".to_string(),
                                        verb,
                                        String::new(),
                                    ),
                                    Some(ProximaToolData::LocalMemory(entries)),
                                ),
                            ),
                            0,
                        )
                    } else {
                        ToolOutcome::Finished(
                            Err(
                                bad_arguments_error(
                                    1,
                                    lines.len(),
                                    "The first input line contains the key, there are no other lines",
                                ),
                            ),
                            0,
                        )
                    }
                } else {
                    if lines.len() >= 2 {
                        proof {
                            assert(text_views(lines@)[0] == lines@[0]@);
                        }
                        let key = lines[0].clone();
                        let value = join_from(&lines, 1, "\n");
                        put_entry(&mut entries, key, value);
                        ToolOutcome::Finished(
                            Ok(
                                (
                                    generate_call_output(
                                        "Local Memory".to_string(),
                                        verb,
                                        String::new(),
                                    ),
                                    Some(ProximaToolData::LocalMemory(entries)),
                                ),
                            ),
                            0,
                        )
                    } else {
                        ToolOutcome::Finished(
                            Err(
                                bad_arguments_error(
                                    2,
                                    lines.len(),
                                    "The first input line contains the key, all the rest contain the value assigned to that key",
                                ),
                            ),
                            0,
                        )
                    }
                }
            },
            ProximaTool::Calculator => if same_text(verb.as_str(), "compute") {
                respond_lines(
                    "Calculator",
                    verb,
                    LineAction::Compute,
                    &lines,
                    answers,
                    from,
                    "You must provide at least 1 expression to compute",
                )
            } else {
                respond_lines(
                    "Calculator",
                    verb,
                    LineAction::Check,
                    &lines,
                    answers,
                    from,
                    "You must provide at least 1 line of expressions to check",
                )
            },
            ProximaTool::Web => if same_text(verb.as_str(), "search") {
                respond_lines(
                    "Web",
                    verb,
                    LineAction::Search,
                    &lines,
                    answers,
                    from,
                    "You must provide at least 1 query to search",
                )
            } else {
                respond_lines(
                    "Web",
                    verb,
                    LineAction::Open,
                    &lines,
                    answers,
                    from,
                    "You must provide at least 1 website to open",
                )
            },
            ProximaTool::Python => {
                if from >= answers.len() {
                    return ToolOutcome::Needs(ToolRequest::Python { mode: action, data: input });
                }
                proof {
                    assert(given[0] == answers@[from as int]@);
                }
                match &answers[from] {
                    ToolAnswer::Text(reply) => ToolOutcome::Finished(
                        Ok(
                            (
                                generate_call_output(
                                    "Python".to_string(),
                                    action,
                                    format_python_output(reply.as_str()),
                                ),
                                None,
                            ),
                        ),
                        1,
                    ),
                    ToolAnswer::Failed(message) => ToolOutcome::Finished(
                        Err(ProximaToolCallError::Network(message.clone())),
                        1,
                    ),
                    _ => ToolOutcome::Finished(Err(unexpected_answer_error()), 1),
                }
            },
            ProximaTool::Agent => {
                let empty = AgentRegistry {
                    agents: Vec::new(),
                    counter: 0,
                    allocatable_tools: Vec::new(),
                };
                let registry = match data {
                    Some(ProximaToolData::Agent(registry)) => registry,
                    _ => &empty,
                };
                if same_text(verb.as_str(), "run") {
                    if lines.len() >= 4 {
                        proof {
                            assert(text_views(lines@)[0] == lines@[0]@);
                            assert(text_views(lines@)[1] == lines@[1]@);
                            assert(text_views(lines@)[2] == lines@[2]@);
                        }
                        match resolve_agent_tools(&lines[2], &registry.allocatable_tools) {
                            Some(tools) => {
                                let request = ToolRequest::StartAgent {
                                    name: lines[0].clone(),
                                    model: lines[1].clone(),
                                    tools: clone_tool_list(&tools),
                                    prompt: join_from(&lines, 3, "\n"),
                                };
                                let record = AgentRecord {
                                    name: lines[0].clone(),
                                    model: lines[1].clone(),
                                    allowed_tools: tools,
                                    status: AgentStatus::Standby,
                                    chat_id: 0,
                                };
                                let counter = if registry.counter < usize::MAX {
                                    registry.counter + 1
                                } else {
                                    registry.counter
                                };
                                respond_agent(
                                    verb,
                                    &lines[0],
                                    answers,
                                    from,
                                    request,
                                    registry,
                                    record,
                                    counter,
                                )
                            },
                            None => ToolOutcome::Finished(
                                Err(
                                    ProximaToolCallError::Parsing(
                                        ToolParsingError::BadElementName {
                                            expected: "an allocatable tool".to_string(),
                                            found: lines[2].clone(),
                                        },
                                    ),
                                ),
                                0,
                            ),
                        }
                    } else {
                        ToolOutcome::Finished(
                            Err(
                                bad_arguments_error(
                                    4,
                                    lines.len(),
                                    "The input lines are the name of the agent, its model, its tools and then the prompt",
                                ),
                            ),
                            0,
                        )
                    }
                } else {
                    if lines.len() >= 2 {
                        proof {
                            assert(text_views(lines@)[0] == lines@[0]@);
                        }
                        let k = registry.find(&lines[0]);
                        if k < registry.agents.len() {
                            let mut record = registry.agents[k].clone();
                            record.status = AgentStatus::Standby;
                            let request = ToolRequest::ContinueAgent {
                                chat_id: registry.agents[k].chat_id,
                                prompt: join_from(&lines, 1, "\n"),
                            };
                            respond_agent(
                                verb,
                                &lines[0],
                                answers,
                                from,
                                request,
                                registry,
                                record,
                                registry.counter,
                            )
                        } else {
                            ToolOutcome::Finished(
                                Err(
                                    ProximaToolCallError::Parsing(
                                        ToolParsingError::BadElementName {
                                            expected: "the name of an agent".to_string(),
                                            found: lines[0].clone(),
                                        },
                                    ),
                                ),
                                0,
                            )
                        }
                    } else {
                        ToolOutcome::Finished(
                            Err(
                                bad_arguments_error(
                                    2,
                                    lines.len(),
                                    "The first input line is the name of the agent, the rest is the message to it",
                                ),
                            ),
                            0,
                        )
                    }
                }
            },
        }
    }
}

} // verus!
