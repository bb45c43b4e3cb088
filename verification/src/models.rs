//! The records that the marketplace index keeps and serves: registered
//! agents, posted tasks, zkTLS schemas, and the shapes of the API's answers.

use vstd::prelude::*;

verus! {

/// The lowercase form of a text, as `str::to_lowercase` maps it.
pub uninterp spec fn spec_lowercase(s: Seq<char>) -> Seq<char>;

/// The ASCII lowercase form of a text: 'A' to 'Z' become 'a' to 'z', every
/// other character stays.
pub open spec fn ascii_lowercase(s: Seq<char>) -> Seq<char> {
    s.map_values(|c: char| if 'A' <= c <= 'Z' {
        (c as int + 32) as char
    } else {
        c
    })
}

/// `str::to_lowercase`: the contract names the result, and for a text of
/// ASCII characters it is the ASCII lowercase form (the Unicode lowercase
/// mapping of an ASCII letter is its ASCII lowercase letter).
#[verifier::external_body]
pub(crate) fn to_lowercase(s: &str) -> (r: String)
    ensures
        r@ == spec_lowercase(s@),
        (forall|i: int| 0 <= i < s@.len() ==> s@[i] <= '\x7f') ==> r@ == ascii_lowercase(s@),
{
    s.to_lowercase()
}

/// The view of an optional string.
pub open spec fn opt_view(s: Option<String>) -> Option<Seq<char>> {
    match s {
        Some(s) => Some(s@),
        None => None,
    }
}

/// Copies an optional string.
pub fn duplicate_opt(s: &Option<String>) -> (r: Option<String>)
    ensures
        opt_view(r) == opt_view(*s),
{
    match s {
        Some(s) => Some(s.clone()),
        None => None,
    }
}

/// An agent registered in the AgentRegistry contract.
#[derive(Debug, Clone)]
pub struct Agent {
    pub address: String,
    pub tee_public_key: String,
    pub metadata_uri: Option<String>,
    pub registered_at: u64,
    pub active: bool,
}

/// The contents of an [`Agent`].
pub struct AgentView {
    pub address: Seq<char>,
    pub tee_public_key: Seq<char>,
    pub metadata_uri: Option<Seq<char>>,
    pub registered_at: u64,
    pub active: bool,
}

impl View for Agent {
    type V = AgentView;

    open spec fn view(&self) -> AgentView {
        AgentView {
            address: self.address@,
            tee_public_key: self.tee_public_key@,
            metadata_uri: opt_view(self.metadata_uri),
            registered_at: self.registered_at,
            active: self.active,
        }
    }
}

impl Agent {
    /// A copy with the same contents.
    pub fn duplicate(&self) -> (r: Agent)
        ensures
            r@ == self@,
    {
        Agent {
            address: self.address.clone(),
            tee_public_key: self.tee_public_key.clone(),
            metadata_uri: duplicate_opt(&self.metadata_uri),
            registered_at: self.registered_at,
            active: self.active,
        }
    }
}

/// A task posted in the TaskContract.
#[derive(Debug, Clone)]
pub struct Task {
    pub id: u64,
    pub poster: String,
    pub description: String,
    /// The reward in wei, as a decimal string.
    pub reward: String,
    pub schema_id: u64,
    pub schema_name: Option<String>,
    pub deadline: u64,
    pub created_at: u64,
    pub status: String,
    pub executor: Option<String>,
    pub proof_verified: bool,
}

/// The contents of a [`Task`].
pub struct TaskView {
    pub id: u64,
    pub poster: Seq<char>,
    pub description: Seq<char>,
    pub reward: Seq<char>,
    pub schema_id: u64,
    pub schema_name: Option<Seq<char>>,
    pub deadline: u64,
    pub created_at: u64,
    pub status: Seq<char>,
    pub executor: Option<Seq<char>>,
    pub proof_verified: bool,
}

impl View for Task {
    type V = TaskView;

    open spec fn view(&self) -> TaskView {
        TaskView {
            id: self.id,
            poster: self.poster@,
            description: self.description@,
            reward: self.reward@,
            schema_id: self.schema_id,
            schema_name: opt_view(self.schema_name),
            deadline: self.deadline,
            created_at: self.created_at,
            status: self.status@,
            executor: opt_view(self.executor),
            proof_verified: self.proof_verified,
        }
    }
}

impl Task {
    /// A copy with the same contents.
    pub fn duplicate(&self) -> (r: Task)
        ensures
            r@ == self@,
    {
        Task {
            id: self.id,
            poster: self.poster.clone(),
            description: self.description.clone(),
            reward: self.reward.clone(),
            schema_id: self.schema_id,
            schema_name: duplicate_opt(&self.schema_name),
            deadline: self.deadline,
            created_at: self.created_at,
            status: self.status.clone(),
            executor: duplicate_opt(&self.executor),
            proof_verified: self.proof_verified,
        }
    }
}

/// A zkTLS schema from the SchemaRegistry.
#[derive(Debug)]
pub struct Schema {
    pub id: u64,
    pub name: String,
    pub description: String,
    pub server_host: String,
    /// The request format, as JSON text.
    pub request_schema: String,
    /// The response format, as JSON text.
    pub response_schema: String,
    pub creator: String,
    pub created_at: u64,
    pub active: bool,
}

/// The contents of a [`Schema`].
pub struct SchemaView {
    pub id: u64,
    pub name: Seq<char>,
    pub description: Seq<char>,
    pub server_host: Seq<char>,
    pub request_schema: Seq<char>,
    pub response_schema: Seq<char>,
    pub creator: Seq<char>,
    pub created_at: u64,
    pub active: bool,
}

impl View for Schema {
    type V = SchemaView;

    open spec fn view(&self) -> SchemaView {
        SchemaView {
            id: self.id,
            name: self.name@,
            description: self.description@,
            server_host: self.server_host@,
            request_schema: self.request_schema@,
            response_schema: self.response_schema@,
            creator: self.creator@,
            created_at: self.created_at,
            active: self.active,
        }
    }
}

impl Schema {
    /// A copy with the same contents.
    pub fn duplicate(&self) -> (r: Schema)
        ensures
            r@ == self@,
    {
        Schema {
            id: self.id,
            name: self.name.clone(),
            description: self.description.clone(),
            server_host: self.server_host.clone(),
            request_schema: self.request_schema.clone(),
            response_schema: self.response_schema.clone(),
            creator: self.creator.clone(),
            created_at: self.created_at,
            active: self.active,
        }
    }
}

/// One page of a listing.
pub struct PaginatedResponse<T> {
    pub data: Vec<T>,
    pub page: u64,
    pub limit: u64,
    pub total: u64,
}

/// The answer of the health endpoint.
pub struct HealthResponse {
    pub status: String,
    pub last_synced_block: u64,
}

/// The query of the agent listing.
pub struct AgentQuery {
    pub active: Option<bool>,
    pub page: Option<u64>,
    pub limit: Option<u64>,
}

/// The query of the task listing.
pub struct TaskQuery {
    pub status: Option<String>,
    pub page: Option<u64>,
    pub limit: Option<u64>,
}

/// The query of the schema listing.
pub struct SchemaQuery {
    pub active: Option<bool>,
    pub page: Option<u64>,
    pub limit: Option<u64>,
}

/// An event log as the index reads it: its topics (32 bytes each, the
/// first naming the event), its data, and its block number where known.
pub struct EventLog {
    pub topics: Vec<[u8; 32]>,
    pub data: Vec<u8>,
    pub block_number: Option<u64>,
}

/// Configuration of the marketplace API backend.
pub struct Config {
    /// Ethereum RPC WebSocket URL (for real-time event subscriptions).
    pub rpc_ws_url: String,
    /// Ethereum RPC HTTP URL (for historical event sync).
    pub rpc_http_url: String,
    /// Agent Registry contract address.
    pub agent_registry_address: String,
    /// Task contract address.
    pub task_contract_address: String,
    /// Schema Registry contract address.
    pub schema_registry_address: String,
    /// Block number to start syncing from.
    pub start_block: u64,
    /// API server bind address.
    pub bind_addr: String,
}

} // verus!
