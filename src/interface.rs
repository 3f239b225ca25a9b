use vstd::prelude::*;

verus! {

/// The registered identity, as the server returns it. `id` and `api_key`
/// are what later calls authenticate with.
#[derive(Debug, Clone)]
pub struct UserInfo {
    pub id: String,
    pub name: String,
    pub api_key: String,
    pub perm_superuser: bool,
    pub perm_load_llm: bool,
    pub perm_unload_llm: bool,
    pub perm_download_llm: bool,
    pub perm_session: bool,
    pub perm_request_download: bool,
    pub perm_request_load: bool,
    pub perm_request_unload: bool,
    pub perm_view_llms: bool,
    pub perm_bare_model: bool,
}

/// A capability of a model, as the server names it.
#[derive(Clone, Copy, Debug, PartialEq, Eq, Hash, Structural)]
pub enum CapabilityType {
    General,
    Assistant,
    Writing,
    Coding,
}

/// A request for a set of permissions.
#[derive(Debug, Clone)]
pub struct PermissionRequest {
    pub requested_permissions: UserPermissions,
}

/// A request to load a model.
#[derive(Debug, Clone)]
pub struct LoadRequest {
    pub llm_id: String,
}

/// A request to unload a model.
#[derive(Debug, Clone)]
pub struct UnloadRequest {
    pub llm_id: String,
}

/// What one inference event reports.
#[derive(Clone, Debug)]
pub enum LLMEventInternal {
    /// Partial output: the text so far and the newest increment.
    PromptProgress { previous: String, next: String },
    /// The prompt finished with this text.
    PromptCompletion { previous: String },
    /// Inference failed.
    PromptError { message: String },
    Other,
}

/// Capability flags attached to a registered identity.
#[derive(Debug, Clone, Copy, PartialEq, Eq, Structural)]
pub struct UserPermissions {
    pub perm_superuser: bool,
    pub perm_load_llm: bool,
    pub perm_unload_llm: bool,
    pub perm_download_llm: bool,
    pub perm_session: bool,
    pub perm_request_download: bool,
    pub perm_request_load: bool,
    pub perm_request_unload: bool,
    pub perm_view_llms: bool,
    pub perm_bare_model: bool,
}

/// The kind of connector that runs a model.
#[derive(Debug, Clone, Copy, PartialEq, Eq, Structural)]
pub enum LLMConnectorType {
    GenericAPI,
    LLMrs,
    OpenAI,
}

/// The display name of a connector type.
pub open spec fn connector_name(c: LLMConnectorType) -> Seq<char> {
    match c {
        LLMConnectorType::GenericAPI => "GenericAPI"@,
        LLMConnectorType::LLMrs => "LLMrs"@,
        LLMConnectorType::OpenAI => "OpenAI"@,
    }
}

impl LLMConnectorType {
    /// The display name of this connector type.
    pub fn to_string(&self) -> (r: String)
        ensures
            r@ == connector_name(*self),
    {
        match self {
            LLMConnectorType::GenericAPI => String::from_str("GenericAPI"),
            LLMConnectorType::LLMrs => String::from_str("LLMrs"),
            LLMConnectorType::OpenAI => String::from_str("OpenAI"),
        }
    }
}

} // verus!
