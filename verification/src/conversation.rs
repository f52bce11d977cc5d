//! The conversation as the agent loop holds it: items, their content, and the
//! tools that are offered to the model.

use crate::json::Json;
use vstd::prelude::*;

verus! {

/// How closely an image is to be looked at.
#[derive(Clone, Copy, Debug, PartialEq, Eq, Structural)]
pub enum ImageDetail {
    Auto,
    Low,
    High,
    Original,
}

/// One part of a message.
#[derive(Debug)]
pub enum ContentItem {
    InputText { text: String },
    OutputText { text: String },
    InputImage { image_url: String, detail: Option<ImageDetail> },
}

/// One part of a tool's output.
#[derive(Debug)]
pub enum FunctionCallOutputContentItem {
    InputText { text: String },
    InputImage { image_url: String, detail: Option<ImageDetail> },
}

/// A tool's output.
#[derive(Debug)]
pub enum FunctionCallOutputBody {
    Text(String),
    ContentItems(Vec<FunctionCallOutputContentItem>),
}

/// One part of the model's reasoning.
#[derive(Debug)]
pub enum ReasoningItemContent {
    ReasoningText { text: String },
    Text { text: String },
}

/// One item of the conversation.
#[derive(Debug)]
pub enum ResponseItem {
    Message { role: String, content: Vec<ContentItem> },
    Reasoning { content: Option<Vec<ReasoningItemContent>> },
    FunctionCall {
        id: Option<String>,
        name: String,
        namespace: Option<String>,
        /// The arguments as the JSON text that the model produced.
        arguments: String,
        call_id: String,
    },
    FunctionCallOutput { call_id: String, body: FunctionCallOutputBody, success: Option<bool> },
    /// The call or the output of another kind of tool: local shell, custom
    /// tools, tool search, web search, image generation.
    ToolActivity,
    /// Any other kind of item: compaction markers and the like.
    Other,
}

/// A function that the model may call.
#[derive(Debug)]
pub struct ResponsesApiTool {
    pub name: String,
    pub description: String,
    pub strict: bool,
    /// The JSON schema of its parameters.
    pub parameters: Json,
}

/// A tool that is offered to the model.
#[derive(Debug)]
pub enum ToolSpec {
    Function(ResponsesApiTool),
    Namespace { name: String, tools: Vec<ResponsesApiTool> },
    /// Any other kind of tool: tool search, image generation, web search,
    /// freeform tools.
    Other,
}

} // verus!
