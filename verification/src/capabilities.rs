//! What the server tells the client that it can do.

use vstd::prelude::*;

verus! {

/// What the server reads of the client's capabilities.
#[derive(Clone, Copy, Debug, PartialEq, Eq, Default)]
pub struct ClientCapabilities {
    /// Whether the client takes code actions as literals, not only as
    /// commands.
    pub code_action_literal_support: bool,
}

/// How the client is to send the changes of a document.
#[derive(Clone, Copy, Debug, PartialEq, Eq, Structural)]
pub enum TextDocumentSyncKind {
    /// Documents are not sent.
    Off,
    /// Every change sends the whole document.
    Full,
    /// A change sends what changed.
    Incremental,
}

/// How the server offers code actions.
#[derive(Clone, Debug, PartialEq, Eq)]
pub enum CodeActionProviderCapability {
    Simple(bool),
    /// Code actions of these kinds, as literals.
    Options { code_action_kinds: Vec<String> },
}

/// The capabilities of the server.
#[derive(Clone, Debug, PartialEq, Eq)]
pub struct ServerCapabilities {
    pub text_document_sync: TextDocumentSyncKind,
    pub document_symbol_provider: bool,
    /// The characters that make the client ask for completion.
    pub completion_trigger_characters: Vec<String>,
    pub hover_provider: bool,
    pub definition_provider: bool,
    pub code_action_provider: CodeActionProviderCapability,
    pub document_formatting_provider: bool,
    pub document_range_formatting_provider: bool,
    pub references_provider: bool,
}

/// The capabilities of this server, given those of the client: everything
/// that the server serves is on, documents are sent whole, completion is
/// asked for after a dot, and code actions are quick fixes, offered as
/// literals where the client takes them.
pub fn server_capabilities(client_caps: &ClientCapabilities) -> (caps: ServerCapabilities)
    ensures
        caps.text_document_sync == TextDocumentSyncKind::Full,
        caps.document_symbol_provider,
        caps.completion_trigger_characters@.len() == 1,
        caps.completion_trigger_characters@[0]@ == "."@,
        caps.hover_provider,
        caps.definition_provider,
        caps.document_formatting_provider,
        caps.document_range_formatting_provider,
        caps.references_provider,
        match caps.code_action_provider {
            CodeActionProviderCapability::Simple(on) => !client_caps.code_action_literal_support
                && on,
            CodeActionProviderCapability::Options { code_action_kinds } =>
                client_caps.code_action_literal_support && code_action_kinds@.len() == 1
                    && code_action_kinds@[0]@ == "quickfix"@,
        },
{
    let mut triggers: Vec<String> = Vec::new();
    triggers.push(String::from_str("."));
    let code_action_provider = if client_caps.code_action_literal_support {
        let mut kinds: Vec<String> = Vec::new();
        kinds.push(String::from_str("quickfix"));
        CodeActionProviderCapability::Options { code_action_kinds: kinds }
    } else {
        CodeActionProviderCapability::Simple(true)
    };
    ServerCapabilities {
        text_document_sync: TextDocumentSyncKind::Full,
        document_symbol_provider: true,
        completion_trigger_characters: triggers,
        hover_provider: true,
        definition_provider: true,
        code_action_provider,
        document_formatting_provider: true,
        document_range_formatting_provider: true,
        references_provider: true,
    }
}

} // verus!
