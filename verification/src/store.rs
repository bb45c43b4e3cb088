//! The in-memory index of on-chain events: agents, tasks and schemas, the
//! handling of each event, and the listings that the API serves.

use std::collections::HashMap;
use vstd::prelude::*;
use vstd::std_specs::iter::IteratorSpec;

use vstd::string::*;
use vstd::utf8::*;

use crate::cli::{hex_string, spec_hex_string};
use crate::encoding::{
    be_bounded, be_bounded_u64, be_to_decimal, be_to_u64, be_value, decimal_digits, keccak256,
    keccak256_digest, spec_word_debug, word_debug,
};
use crate::http::str_from_utf8;
use crate::models::{
    opt_view, Agent, AgentQuery, AgentView, EventLog, HealthResponse, PaginatedResponse,
    Schema, SchemaQuery, SchemaView, Task, TaskQuery, TaskView,
};

verus! {

broadcast use {vstd::std_specs::hash::group_hash_axioms, vstd::utf8::encode_utf8_decode_utf8};

/// The index of indexed on-chain data.
pub struct Store {
    agents: Vec<Agent>,
    tasks: HashMap<u64, Task>,
    schemas: HashMap<u64, Schema>,
    last_synced_block: u64,
}

/// The contents of a [`Store`]: agents in the order they were first
/// registered, tasks and schemas by id, and the last block fully synced.
pub struct StoreView {
    pub agents: Seq<AgentView>,
    pub tasks: Map<u64, TaskView>,
    pub schemas: Map<u64, SchemaView>,
    pub last_synced_block: u64,
}

impl View for Store {
    type V = StoreView;

    closed spec fn view(&self) -> StoreView {
        StoreView {
            agents: self.agents@.map_values(|a: Agent| a@),
            tasks: self.tasks@.map_values(|t: Task| t@),
            schemas: self.schemas@.map_values(|s: Schema| s@),
            last_synced_block: self.last_synced_block,
        }
    }
}

/// The invariant of the index: no address is registered twice, and every
/// task and schema is filed under its own id.
pub open spec fn store_wf(v: StoreView) -> bool {
    &&& forall|i: int, j: int|
        0 <= i < j < v.agents.len() ==> #[trigger] v.agents[i].address != #[trigger] v.agents[j].address
    &&& forall|k: u64| #[trigger] v.tasks.contains_key(k) ==> v.tasks[k].id == k
    &&& forall|k: u64| #[trigger] v.schemas.contains_key(k) ==> v.schemas[k].id == k
}

/// An empty index.
pub open spec fn empty_store() -> StoreView {
    StoreView { agents: seq![], tasks: Map::empty(), schemas: Map::empty(), last_synced_block: 0 }
}

/// The keys of a map in strictly decreasing order.
pub open spec fn is_desc_enumeration(ks: Seq<u64>, keys: Set<u64>) -> bool {
    &&& ks.to_set() == keys
    &&& forall|i: int, j: int| 0 <= i < j < ks.len() ==> #[trigger] ks[i] > #[trigger] ks[j]
}


/// The page number of a query: 1 where none or 0 is given.
pub open spec fn spec_page(p: Option<u64>) -> u64 {
    match p {
        Some(p) => if p < 1 {
            1
        } else {
            p
        },
        None => 1,
    }
}

/// The page size of a query: 20 where none is given, at most 100.
pub open spec fn spec_limit(l: Option<u64>) -> u64 {
    match l {
        Some(l) => if l > 100 {
            100
        } else {
            l
        },
        None => 20,
    }
}

/// The offset of the page's first item fits in 64 bits.
pub open spec fn query_fits(p: Option<u64>, l: Option<u64>) -> bool {
    (spec_page(p) - 1) * spec_limit(l) <= u64::MAX
}

/// The offset of the page's first item.
pub open spec fn page_start(p: Option<u64>, l: Option<u64>) -> int {
    (((spec_page(p) - 1) * spec_limit(l)) as u64) as usize as int
}

/// The items of a listing from `start` on, at most `limit` of them.
pub open spec fn page_of<T>(s: Seq<T>, start: int, limit: int) -> Seq<T> {
    let a = if start < s.len() {
        start
    } else {
        s.len() as int
    };
    let b = if a + limit < s.len() {
        a + limit
    } else {
        s.len() as int
    };
    s.subrange(a, b)
}

/// The ids of the tasks that a status filter selects.
pub open spec fn selected_task_ids(v: StoreView, status: Option<Seq<char>>) -> Set<u64> {
    v.tasks.dom().filter(
        |k: u64|
            match status {
                Some(s) => v.tasks[k].status == s,
                None => true,
            },
    )
}

/// The ids of the schemas that an activity filter selects.
pub open spec fn selected_schema_ids(v: StoreView, active: Option<bool>) -> Set<u64> {
    v.schemas.dom().filter(
        |k: u64|
            match active {
                Some(b) => v.schemas[k].active == b,
                None => true,
            },
    )
}

/// The agents that an activity filter selects, in index order.
pub open spec fn selected_agents(v: StoreView, active: Option<bool>) -> Seq<AgentView> {
    v.agents.filter(
        |a: AgentView|
            match active {
                Some(b) => a.active == b,
                None => true,
            },
    )
}


/// Topic `i` of a log.
pub open spec fn topic(log: &EventLog, i: int) -> Seq<u8> {
    log.topics@[i]@
}

/// The block number of a log, 0 where unknown.
pub open spec fn block_of(log: &EventLog) -> u64 {
    match log.block_number {
        Some(b) => b,
        None => 0,
    }
}

/// Some agent of the list carries `addr`.
pub open spec fn has_agent(agents: Seq<AgentView>, addr: Seq<char>) -> bool {
    exists|i: int| 0 <= i < agents.len() && agents[i].address == addr
}

/// The position of the agent carrying `addr`.
pub open spec fn agent_pos(agents: Seq<AgentView>, addr: Seq<char>) -> int {
    choose|i: int| 0 <= i < agents.len() && agents[i].address == addr
}

/// Files `a` under its address: it replaces the agent carrying that
/// address, or joins the end of the list.
pub open spec fn upsert_agent(agents: Seq<AgentView>, a: AgentView) -> Seq<AgentView> {
    if has_agent(agents, a.address) {
        agents.update(agent_pos(agents, a.address), a)
    } else {
        agents.push(a)
    }
}

/// Marks the agent carrying `addr`, if any, inactive.
pub open spec fn deactivate_agent(agents: Seq<AgentView>, addr: Seq<char>) -> Seq<AgentView> {
    if has_agent(agents, addr) {
        let i = agent_pos(agents, addr);
        agents.update(i, AgentView { active: false, ..agents[i] })
    } else {
        agents
    }
}

/// The address that an indexed 32-byte topic carries, as the index keys
/// agents: "0x" and the lowercase hex of its last 20 bytes.
pub open spec fn agent_address(w: Seq<u8>) -> Seq<char> {
    spec_hex_string(w.subrange(12, 32))
}

/// The TEE public key of an AgentRegistered log's data (its first dynamic
/// value, the `bytes teePublicKey`) in 0x-prefixed hex; "0x" where the data
/// holds none.
pub open spec fn tee_key_of(d: Seq<u8>) -> Seq<char> {
    match spec_abi_bytes(d, 0) {
        Some(b) => spec_hex_string(b),
        None => seq!['0', 'x'],
    }
}

/// The agent that an AgentRegistered log registers.
pub open spec fn registered_agent(log: &EventLog) -> AgentView {
    AgentView {
        address: agent_address(topic(log, 1)),
        tee_public_key: tee_key_of(log.data@),
        metadata_uri: None,
        registered_at: block_of(log),
        active: true,
    }
}

/// The numbers that a TaskCreated log carries fit in 64 bits: the task id
/// (topic 1) and, where the data holds them, the schema id and deadline.
pub open spec fn task_created_fits(log: &EventLog) -> bool {
    let d = log.data@;
    &&& be_value(topic(log, 1)) <= u64::MAX
    &&& d.len() >= 64 ==> be_value(d.subrange(32, 64)) <= u64::MAX
    &&& d.len() >= 96 ==> be_value(d.subrange(64, 96)) <= u64::MAX
}

/// The task that a TaskCreated log posts: id (topic 1), poster (topic 2),
/// and from the data the reward, schema id and deadline (32-byte words,
/// each 0 where the data is too short).
pub open spec fn created_task(log: &EventLog) -> TaskView {
    let d = log.data@;
    TaskView {
        id: be_value(topic(log, 1)) as u64,
        poster: spec_word_debug(topic(log, 2)),
        description: seq![],
        reward: if d.len() >= 32 {
            decimal_digits(be_value(d.subrange(0, 32)))
        } else {
            seq!['0']
        },
        schema_id: if d.len() >= 64 {
            be_value(d.subrange(32, 64)) as u64
        } else {
            0
        },
        schema_name: None,
        deadline: if d.len() >= 96 {
            be_value(d.subrange(64, 96)) as u64
        } else {
            0
        },
        created_at: block_of(log),
        status: seq!['O', 'p', 'e', 'n'],
        executor: None,
        proof_verified: false,
    }
}

/// The bytes of the `k`-th ABI-encoded dynamic `string` of event data: the
/// head word `k` holds the offset of a length word, which the bytes follow.
/// `None` where an offset or length runs past the data.
pub open spec fn spec_abi_bytes(d: Seq<u8>, k: nat) -> Option<Seq<u8>> {
    let h: int = 32 * (k as int);
    if h + 32 > d.len() {
        None
    } else {
        let o: int = be_value(d.subrange(h, h + 32)) as int;
        if o + 32 > d.len() {
            None
        } else {
            let l: int = be_value(d.subrange(o, o + 32)) as int;
            if o + 32 + l > d.len() {
                None
            } else {
                Some(d.subrange(o + 32, o + 32 + l))
            }
        }
    }
}

/// The `k`-th `string` of event data as text: empty where it cannot be read
/// or is not UTF-8.
pub open spec fn spec_abi_text(d: Seq<u8>, k: nat) -> Seq<char> {
    match spec_abi_bytes(d, k) {
        Some(b) => if valid_utf8(b) {
            decode_utf8(b)
        } else {
            seq![]
        },
        None => seq![],
    }
}

/// The schema that a SchemaAdded log adds: id (topic 1), creator (topic 2),
/// its name and server host (the two strings of the data), and the JSON
/// text `null` for both documents.
pub open spec fn added_schema(log: &EventLog) -> SchemaView {
    SchemaView {
        id: be_value(topic(log, 1)) as u64,
        name: spec_abi_text(log.data@, 0),
        description: seq![],
        server_host: spec_abi_text(log.data@, 1),
        request_schema: "null"@,
        response_schema: "null"@,
        creator: spec_word_debug(topic(log, 2)),
        created_at: block_of(log),
        active: true,
    }
}

/// The status text "InProgress".
pub open spec fn in_progress() -> Seq<char> {
    seq!['I', 'n', 'P', 'r', 'o', 'g', 'r', 'e', 's', 's']
}

/// The status text "Completed".
pub open spec fn completed() -> Seq<char> {
    seq!['C', 'o', 'm', 'p', 'l', 'e', 't', 'e', 'd']
}

/// A task with an executor assigned.
pub open spec fn applied_task(t: TaskView, executor: Seq<char>) -> TaskView {
    TaskView { executor: Some(executor), status: in_progress(), ..t }
}

/// The status text "Disputed".
pub open spec fn disputed() -> Seq<char> {
    seq!['D', 'i', 's', 'p', 'u', 't', 'e', 'd']
}

/// A task whose proof the verifier has judged: completed with its proof
/// verified where it succeeded, disputed otherwise.
pub open spec fn judged_task(t: TaskView, success: bool) -> TaskView {
    if success {
        TaskView { status: completed(), proof_verified: true, ..t }
    } else {
        TaskView { status: disputed(), proof_verified: false, ..t }
    }
}

/// The verdict that a ProofVerified log carries: its first data word is not
/// zero.
pub open spec fn verdict(log: &EventLog) -> bool {
    be_value(log.data@.subrange(0, 32)) != 0
}


/// Two strings are equal.
pub(crate) fn str_eq(a: &str, b: &str) -> (eq: bool)
    ensures
        eq == (a@ == b@),
{
    let x = a.as_bytes();
    let y = b.as_bytes();
    proof {
        vstd::utf8::encode_utf8_decode_utf8(a@);
        vstd::utf8::encode_utf8_decode_utf8(b@);
        assert(x@ == vstd::utf8::encode_utf8(a@));
        assert(y@ == vstd::utf8::encode_utf8(b@));
    }
    if x.len() != y.len() {
        assert(x@ != y@);
        return false;
    }
    let mut i: usize = 0;
    while i < x.len()
        invariant
            x@.len() == y@.len(),
            x@ == vstd::utf8::encode_utf8(a@),
            y@ == vstd::utf8::encode_utf8(b@),
            i <= x@.len(),
            forall|j: int| 0 <= j < i ==> x@[j] == y@[j],
        decreases x@.len() - i,
    {
        if x[i] != y[i] {
            assert(x@ != y@);
            return false;
        }
        i += 1;
    }
    assert(x@ =~= y@);
    true
}

/// The page number and size of a query.
fn page_and_limit(page: Option<u64>, limit: Option<u64>) -> (r: (u64, u64))
    ensures
        r.0 == spec_page(page),
        r.1 == spec_limit(limit),
{
    let p = match page {
        Some(p) => if p < 1 {
            1
        } else {
            p
        },
        None => 1,
    };
    let l = match limit {
        Some(l) => if l > 100 {
            100
        } else {
            l
        },
        None => 20,
    };
    (p, l)
}

/// Whether the offset of a query's page fits in 64 bits, that is whether
/// the listings may be asked for it.
pub fn query_in_range(page: Option<u64>, limit: Option<u64>) -> (ok: bool)
    ensures
        ok == query_fits(page, limit),
{
    let (p, l) = page_and_limit(page, limit);
    (p - 1).checked_mul(l).is_some()
}

/// The bounds of a page within a listing of `len` items.
fn page_bounds(len: usize, page: Option<u64>, limit: Option<u64>) -> (r: (usize, usize))
    requires
        query_fits(page, limit),
    ensures
        ({
            let start = page_start(page, limit);
            let a = if start < len {
                start
            } else {
                len as int
            };
            let b = if a + spec_limit(limit) < len {
                a + spec_limit(limit)
            } else {
                len as int
            };
            r.0 == a && r.1 == b
        }),
{
    let (p, l) = page_and_limit(page, limit);
    let start = ((p - 1) * l) as usize;
    let a = if start < len {
        start
    } else {
        len
    };
    let b = if (l as usize) < len - a {
        a + l as usize
    } else {
        len
    };
    (a, b)
}

/// Inserts `k` into a strictly decreasing sequence that does not hold it.
fn insert_desc(out: &mut Vec<u64>, k: u64)
    requires
        forall|i: int, j: int| 0 <= i < j < old(out)@.len() ==> old(out)@[i] > old(out)@[j],
        !old(out)@.contains(k),
    ensures
        forall|i: int, j: int| 0 <= i < j < final(out)@.len() ==> final(out)@[i] > final(out)@[j],
        final(out)@.to_set() == old(out)@.to_set().insert(k),
        final(out)@.len() == old(out)@.len() + 1,
{
    let mut pos: usize = 0;
    while pos < out.len() && out[pos] > k
        invariant
            pos <= out@.len(),
            forall|j: int| 0 <= j < pos ==> out@[j] > k,
        decreases out@.len() - pos,
    {
        pos += 1;
    }
    let ghost before = out@;
    proof {
        if pos < before.len() {
            assert(before[pos as int] != k);
            assert(before[pos as int] < k);
        }
    }
    out.insert(pos, k);
    assert(out@ =~= before.subrange(0, pos as int).push(k) + before.subrange(pos as int, before.len() as int));
    assert forall|i: int, j: int| 0 <= i < j < out@.len() implies out@[i] > out@[j] by {
        if j < pos {
        } else if j == pos {
        } else if i < pos {
            assert(out@[j] == before[j - 1]);
        } else if i == pos {
            assert(out@[j] == before[j - 1]);
            assert(before[pos as int] > before[j - 1] || pos == j - 1);
        } else {
            assert(out@[i] == before[i - 1]);
            assert(out@[j] == before[j - 1]);
        }
    }
    assert forall|x: u64| out@.to_set().contains(x) <==> before.to_set().insert(k).contains(x) by {
        if out@.contains(x) {
            let i = choose|i: int| 0 <= i < out@.len() && out@[i] == x;
            if i < pos {
                assert(before[i] == x);
            } else if i > pos {
                assert(before[i - 1] == x);
            }
        }
        if before.contains(x) {
            let i = choose|i: int| 0 <= i < before.len() && before[i] == x;
            if i < pos {
                assert(out@[i] == x);
            } else {
                assert(out@[i + 1] == x);
            }
        }
        if x == k {
            assert(out@[pos as int] == k);
        }
    }
    assert(out@.to_set() =~= before.to_set().insert(k));
}

/// Sorts distinct ids into decreasing order.
fn sort_desc(ids: &Vec<u64>) -> (out: Vec<u64>)
    requires
        ids@.no_duplicates(),
    ensures
        is_desc_enumeration(out@, ids@.to_set()),
        out@.len() == ids@.len(),
{
    let mut out: Vec<u64> = Vec::new();
    let mut i: usize = 0;
    while i < ids.len()
        invariant
            ids@.no_duplicates(),
            i <= ids@.len(),
            out@.len() == i,
            out@.to_set() == ids@.take(i as int).to_set(),
            forall|a: int, b: int| 0 <= a < b < out@.len() ==> out@[a] > out@[b],
        decreases ids@.len() - i,
    {
        let k = ids[i];
        proof {
            if out@.contains(k) {
                assert(out@.to_set().contains(k));
                assert(ids@.take(i as int).to_set().contains(k));
                let j = choose|j: int| 0 <= j < i && ids@.take(i as int)[j] == k;
                assert(ids@[j] == ids@[i as int]);
            }
        }
        insert_desc(&mut out, k);
        assert(ids@.take(i + 1) =~= ids@.take(i as int).push(k));
        proof {
            ids@.take(i as int).lemma_push_to_set_commute(k);
        }
        i += 1;
    }
    assert(ids@.take(ids@.len() as int) =~= ids@);
    out
}

/// The topic of an event: the Keccak-256 hash of its signature text.
pub open spec fn event_topic(signature: Seq<char>) -> Seq<u8> {
    keccak256_digest(encode_utf8(signature))
}

/// The index after an AgentRegistered log.
pub open spec fn after_agent_registered(v: StoreView, log: &EventLog) -> StoreView {
    if log.topics@.len() < 2 {
        v
    } else {
        StoreView { agents: upsert_agent(v.agents, registered_agent(log)), ..v }
    }
}

/// The index after an AgentDeregistered log.
pub open spec fn after_agent_deregistered(v: StoreView, log: &EventLog) -> StoreView {
    if log.topics@.len() < 2 {
        v
    } else {
        StoreView { agents: deactivate_agent(v.agents, agent_address(topic(log, 1))), ..v }
    }
}

/// The index after a TaskCreated log.
pub open spec fn after_task_created(v: StoreView, log: &EventLog) -> StoreView {
    if log.topics@.len() < 3 {
        v
    } else {
        StoreView { tasks: v.tasks.insert(created_task(log).id, created_task(log)), ..v }
    }
}

/// The index after a TaskApplied log.
pub open spec fn after_task_applied(v: StoreView, log: &EventLog) -> StoreView {
    if log.topics@.len() < 3 || !v.tasks.contains_key(be_value(topic(log, 1)) as u64) {
        v
    } else {
        let id = be_value(topic(log, 1)) as u64;
        StoreView {
            tasks: v.tasks.insert(id, applied_task(v.tasks[id], spec_word_debug(topic(log, 2)))),
            ..v
        }
    }
}

/// The index after a ProofVerified log.
pub open spec fn after_proof_verified(v: StoreView, log: &EventLog) -> StoreView {
    if log.topics@.len() < 2 || log.data@.len() < 32 || !v.tasks.contains_key(
        be_value(topic(log, 1)) as u64,
    ) {
        v
    } else {
        let id = be_value(topic(log, 1)) as u64;
        StoreView { tasks: v.tasks.insert(id, judged_task(v.tasks[id], verdict(log))), ..v }
    }
}

/// The index after a SchemaAdded log.
pub open spec fn after_schema_added(v: StoreView, log: &EventLog) -> StoreView {
    if log.topics@.len() < 3 {
        v
    } else {
        StoreView { schemas: v.schemas.insert(added_schema(log).id, added_schema(log)), ..v }
    }
}

/// The signature of AgentRegistered.
pub open spec fn sig_agent_registered() -> Seq<char> {
    "AgentRegistered(address,bytes,uint256)"@
}

/// The signature of AgentDeregistered.
pub open spec fn sig_agent_deregistered() -> Seq<char> {
    "AgentDeregistered(address,uint256)"@
}

/// The signature of TaskCreated.
pub open spec fn sig_task_created() -> Seq<char> {
    "TaskCreated(uint256,address,uint256,uint256,uint256)"@
}

/// The signature of TaskApplied.
pub open spec fn sig_task_applied() -> Seq<char> {
    "TaskApplied(uint256,address)"@
}

/// The signature of ProofSubmitted.
pub open spec fn sig_proof_submitted() -> Seq<char> {
    "ProofSubmitted(uint256,address,bytes)"@
}

/// The signature of ProofVerified.
pub open spec fn sig_proof_verified() -> Seq<char> {
    "ProofVerified(uint256,bool)"@
}

/// The signature of SchemaAdded.
pub open spec fn sig_schema_added() -> Seq<char> {
    "SchemaAdded(uint256,string,string,address)"@
}

/// The index after one log: the handler of the event whose topic the
/// log's first topic is, tried in the order of the events above; a log of
/// no known event changes nothing.
pub open spec fn after_log(v: StoreView, log: &EventLog) -> StoreView {
    if log.topics@.len() == 0 {
        v
    } else {
        let t = topic(log, 0);
        if t == event_topic(sig_agent_registered()) {
            after_agent_registered(v, log)
        } else if t == event_topic(sig_agent_deregistered()) {
            after_agent_deregistered(v, log)
        } else if t == event_topic(sig_task_created()) {
            after_task_created(v, log)
        } else if t == event_topic(sig_task_applied()) {
            after_task_applied(v, log)
        } else if t == event_topic(sig_proof_submitted()) {
            v
        } else if t == event_topic(sig_proof_verified()) {
            after_proof_verified(v, log)
        } else if t == event_topic(sig_schema_added()) {
            after_schema_added(v, log)
        } else {
            v
        }
    }
}

/// The numbers that the handler of a log reads fit in 64 bits (the index
/// cannot take a task or schema id beyond them).
pub open spec fn log_fits(log: &EventLog) -> bool {
    if log.topics@.len() == 0 {
        true
    } else {
        let t = topic(log, 0);
        if t == event_topic(sig_agent_registered()) || t == event_topic(sig_agent_deregistered()) {
            true
        } else if t == event_topic(sig_task_created()) {
            log.topics@.len() >= 3 ==> task_created_fits(log)
        } else if t == event_topic(sig_task_applied()) {
            log.topics@.len() >= 3 ==> be_value(topic(log, 1)) <= u64::MAX
        } else if t == event_topic(sig_proof_submitted()) {
            true
        } else if t == event_topic(sig_proof_verified()) {
            log.topics@.len() >= 2 ==> be_value(topic(log, 1)) <= u64::MAX
        } else if t == event_topic(sig_schema_added()) {
            log.topics@.len() >= 3 ==> be_value(topic(log, 1)) <= u64::MAX
        } else {
            true
        }
    }
}

/// The topic of the event with signature `sig`.
fn event_topic_of(sig: &str) -> (h: [u8; 32])
    ensures
        h@ == event_topic(sig@),
{
    keccak256(sig.as_bytes())
}

/// Two words are equal.
fn words_eq(a: &[u8; 32], b: &[u8; 32]) -> (eq: bool)
    ensures
        eq == (a@ == b@),
{
    let mut i: usize = 0;
    while i < 32
        invariant
            a@.len() == 32,
            b@.len() == 32,
            i <= 32,
            forall|j: int| 0 <= j < i ==> a@[j] == b@[j],
        decreases 32 - i,
    {
        if a[i] != b[i] {
            return false;
        }
        i += 1;
    }
    assert(a@ =~= b@);
    true
}

/// The address that an indexed topic carries, as agents are keyed.
fn address_of_topic(w: &[u8; 32]) -> (s: String)
    ensures
        s@ == agent_address(w@),
{
    let tail = &w.as_slice()[12..32];
    assert(tail@ == w@.subrange(12, 32));
    hex_string(tail)
}

/// The number of a 32-byte word where it fits in 64 bits.
fn word_fits(w: &[u8; 32]) -> (ok: bool)
    ensures
        ok == (be_value(w@) <= u64::MAX),
{
    be_bounded_u64(w.as_slice()).is_some()
}

/// The bytes of the `k`-th dynamic value of event data.
fn abi_bytes(data: &[u8], k: usize) -> (r: Option<&[u8]>)
    requires
        k <= 1,
    ensures
        match spec_abi_bytes(data@, k as nat) {
            None => r is None,
            Some(b) => r matches Some(x) && x@ == b,
        },
{
    let h = 32 * k;
    if data.len() < h + 32 {
        return None;
    }
    let head = &data[h..h + 32];
    let o = match be_bounded(head, data.len()) {
        None => return None,
        Some(o) => o,
    };
    if data.len() - o < 32 {
        return None;
    }
    let rest = data.len() - o - 32;
    let lw = &data[o..o + 32];
    let l = match be_bounded(lw, rest) {
        None => return None,
        Some(l) => l,
    };
    Some(&data[o + 32..o + 32 + l])
}

/// The `k`-th `string` of event data as text.
fn abi_text(data: &[u8], k: usize) -> (s: String)
    requires
        k <= 1,
    ensures
        s@ == spec_abi_text(data@, k as nat),
{
    let b = match abi_bytes(data, k) {
        None => return String::new(),
        Some(b) => b,
    };
    match str_from_utf8(b) {
        Some(t) => {
            proof {
                vstd::utf8::encode_utf8_decode_utf8(t@);
            }
            String::from_str(t)
        },
        None => String::new(),
    }
}

/// The TEE public key that an AgentRegistered log carries (the `bytes` of
/// its data) in 0x-prefixed hex; "0x" where the data holds none.
fn tee_key_text(data: &[u8]) -> (s: String)
    ensures
        s@ == tee_key_of(data@),
{
    match abi_bytes(data, 0) {
        Some(b) => hex_string(b),
        None => {
            proof {
                reveal_strlit("0x");
                assert("0x"@ =~= seq!['0', 'x']);
            }
            String::from_str("0x")
        },
    }
}

/// Whether the numbers that the handler of a log reads fit in 64 bits.
pub fn log_in_range(log: &EventLog) -> (ok: bool)
    ensures
        ok == log_fits(log),
{
    if log.topics.len() == 0 {
        return true;
    }
    let t = &log.topics[0];
    let n = log.topics.len();
    if words_eq(t, &event_topic_of("AgentRegistered(address,bytes,uint256)")) || words_eq(
        t,
        &event_topic_of("AgentDeregistered(address,uint256)"),
    ) {
        true
    } else if words_eq(t, &event_topic_of("TaskCreated(uint256,address,uint256,uint256,uint256)")) {
        if n < 3 {
            return true;
        }
        let d = log.data.as_slice();
        word_fits(&log.topics[1]) && (d.len() < 64 || be_bounded_u64(&d[32..64]).is_some()) && (
        d.len() < 96 || be_bounded_u64(&d[64..96]).is_some())
    } else if words_eq(t, &event_topic_of("TaskApplied(uint256,address)")) {
        n < 3 || word_fits(&log.topics[1])
    } else if words_eq(t, &event_topic_of("ProofSubmitted(uint256,address,bytes)")) {
        true
    } else if words_eq(t, &event_topic_of("ProofVerified(uint256,bool)")) {
        n < 2 || word_fits(&log.topics[1])
    } else if words_eq(t, &event_topic_of("SchemaAdded(uint256,string,string,address)")) {
        n < 3 || word_fits(&log.topics[1])
    } else {
        true
    }
}

impl Store {
    /// An empty index.
    pub fn new() -> (s: Store)
        ensures
            s@ == empty_store(),
            store_wf(s@),
            s.wf(),
    {
        let s = Store {
            agents: Vec::new(),
            tasks: HashMap::new(),
            schemas: HashMap::new(),
            last_synced_block: 0,
        };
        assert(s@.agents =~= Seq::<AgentView>::empty());
        assert(s@.tasks =~= Map::<u64, TaskView>::empty());
        assert(s@.schemas =~= Map::<u64, SchemaView>::empty());
        s
    }


    /// The invariant of the index.
    pub closed spec fn wf(&self) -> bool {
        store_wf(self@)
    }

    /// The position of the agent registered under `addr`.
    fn find_agent(&self, addr: &String) -> (r: Option<usize>)
        ensures
            r matches Some(i) ==> i < self@.agents.len() && self@.agents[i as int].address == addr@,
            r is None ==> !has_agent(self@.agents, addr@),
    {
        let mut i: usize = 0;
        while i < self.agents.len()
            invariant
                i <= self@.agents.len(),
                self@.agents.len() == self.agents@.len(),
                forall|j: int| 0 <= j < i ==> self@.agents[j].address != addr@,
            decreases self.agents@.len() - i,
        {
            assert(self@.agents[i as int] == self.agents@[i as int]@);
            if self.agents[i].address == *addr {
                return Some(i);
            }
            i += 1;
        }
        None
    }

    /// Files an agent under its address.
    fn upsert(&mut self, agent: Agent)
        requires
            old(self).wf(),
        ensures
            final(self).wf(),
            final(self)@ == (StoreView { agents: upsert_agent(old(self)@.agents, agent@), ..old(self)@ }),
    {
        let ghost old_agents = self@.agents;
        match self.find_agent(&agent.address) {
            Some(i) => {
                proof {
                    let p = agent_pos(old_agents, agent@.address);
                    assert(has_agent(old_agents, agent@.address));
                    if p != i {
                        if p < i {
                            assert(old_agents[p].address != old_agents[i as int].address);
                        } else {
                            assert(old_agents[i as int].address != old_agents[p].address);
                        }
                    }
                }
                self.agents.set(i, agent);
            },
            None => {
                self.agents.push(agent);
            },
        }
        assert(self@.agents =~= upsert_agent(old_agents, agent@));
    }

    /// Indexes an AgentRegistered event: the agent whose address topic 1
    /// carries is filed as registered and active at the log's block, with
    /// the TEE public key that the data carries. A log with fewer than two
    /// topics is ignored.
    pub fn handle_agent_registered(&mut self, log: &EventLog)
        requires
            old(self).wf(),
        ensures
            final(self).wf(),
            final(self)@ == after_agent_registered(old(self)@, log),
    {
        if log.topics.len() < 2 {
            return;
        }
        let agent_address = address_of_topic(&log.topics[1]);
        let agent = Agent {
            address: agent_address,
            tee_public_key: tee_key_text(log.data.as_slice()),
            metadata_uri: None,
            registered_at: match log.block_number {
                Some(b) => b,
                None => 0,
            },
            active: true,
        };
        assert(agent@ == registered_agent(log));
        self.upsert(agent);
    }

    /// Indexes an AgentDeregistered event: the agent whose address topic 1
    /// carries, if indexed, becomes inactive. A log with fewer than two
    /// topics is ignored.
    pub fn handle_agent_deregistered(&mut self, log: &EventLog)
        requires
            old(self).wf(),
        ensures
            final(self).wf(),
            final(self)@ == after_agent_deregistered(old(self)@, log),
    {
        if log.topics.len() < 2 {
            return;
        }
        let agent_address = address_of_topic(&log.topics[1]);
        let ghost old_agents = self@.agents;
        match self.find_agent(&agent_address) {
            Some(i) => {
                proof {
                    let p = agent_pos(old_agents, agent_address@);
                    assert(has_agent(old_agents, agent_address@));
                    if p != i {
                        if p < i {
                            assert(old_agents[p].address != old_agents[i as int].address);
                        } else {
                            assert(old_agents[i as int].address != old_agents[p].address);
                        }
                    }
                }
                let mut agent = self.agents[i].duplicate();
                agent.active = false;
                self.agents.set(i, agent);
            },
            None => {},
        }
        assert(self@.agents =~= deactivate_agent(old_agents, agent_address@));
        assert(self@.schemas =~= old(self)@.schemas);
        assert(self@.tasks =~= old(self)@.tasks);
    }

    /// Indexes a TaskCreated event: the task is filed under its id (topic
    /// 1), posted by topic 2, open, with reward, schema id and deadline read
    /// from the data. A log with fewer than three topics is ignored.
    pub fn handle_task_created(&mut self, log: &EventLog)
        requires
            old(self).wf(),
            log.topics@.len() >= 3 ==> task_created_fits(log),
        ensures
            final(self).wf(),
            final(self)@ == after_task_created(old(self)@, log),
    {
        if log.topics.len() < 3 {
            return;
        }
        let data = &log.data;
        let task_id = be_to_u64(log.topics[1].as_slice());
        let poster = word_debug(&log.topics[2]);
        let reward = if data.len() >= 32 {
            be_to_decimal(&data.as_slice()[0..32])
        } else {
            String::from_str("0")
        };
        let schema_id = if data.len() >= 64 {
            be_to_u64(&data.as_slice()[32..64])
        } else {
            0
        };
        let deadline = if data.len() >= 96 {
            be_to_u64(&data.as_slice()[64..96])
        } else {
            0
        };
        let task = Task {
            id: task_id,
            poster,
            description: String::new(),
            reward,
            schema_id,
            schema_name: None,
            deadline,
            created_at: match log.block_number {
                Some(b) => b,
                None => 0,
            },
            status: String::from_str("Open"),
            executor: None,
            proof_verified: false,
        };
        proof {
            reveal_strlit("0");
            reveal_strlit("Open");
            assert("0"@ =~= seq!['0']);
            assert("Open"@ =~= seq!['O', 'p', 'e', 'n']);
        }
        assert(task@ == created_task(log));
        let ghost old_tasks = self.tasks@;
        self.tasks.insert(task_id, task);
        assert(self@.tasks =~= old_tasks.map_values(|t: Task| t@).insert(task_id, task@));
        assert(self@.schemas =~= old(self)@.schemas);
    }

    /// Indexes a TaskApplied event: the task named by topic 1, if indexed,
    /// gets topic 2 as executor and becomes in progress. A log with fewer
    /// than three topics is ignored.
    pub fn handle_task_applied(&mut self, log: &EventLog)
        requires
            old(self).wf(),
            log.topics@.len() >= 3 ==> be_value(topic(log, 1)) <= u64::MAX,
        ensures
            final(self).wf(),
            final(self)@ == after_task_applied(old(self)@, log),
    {
        if log.topics.len() < 3 {
            return;
        }
        let task_id = be_to_u64(log.topics[1].as_slice());
        let executor = word_debug(&log.topics[2]);
        let ghost old_tasks = self.tasks@;
        match self.tasks.get(&task_id) {
            Some(task) => {
                let mut t = task.duplicate();
                t.executor = Some(executor);
                t.status = String::from_str("InProgress");
                proof {
                    reveal_strlit("InProgress");
                    assert("InProgress"@ =~= in_progress());
                    assert(*task == old_tasks[task_id]);
                    assert(self@.tasks.contains_key(task_id));
                    assert(self@.tasks[task_id].id == task_id);
                }
                assert(t@ == applied_task(old_tasks[task_id]@, executor@));
                self.tasks.insert(task_id, t);
                assert(self@.tasks =~= old_tasks.map_values(|t: Task| t@).insert(task_id, t@));
            },
            None => {},
        }
        assert(self@.schemas =~= old(self)@.schemas);
    }

    /// Indexes a ProofSubmitted event. The verdict on the proof comes with
    /// the ProofVerified event that the contract emits with it, so the task
    /// keeps its status and its proof flag: the index does not change.
    pub fn handle_proof_submitted(&mut self, log: &EventLog)
        requires
            old(self).wf(),
        ensures
            final(self).wf(),
            final(self)@ == old(self)@,
    {
    }

    /// Indexes a ProofVerified event: the task named by topic 1, if indexed,
    /// becomes completed with its proof verified where the verdict (the
    /// first data word) is true, and disputed with its proof not verified
    /// otherwise. A log with fewer than two topics or less than a word of
    /// data is ignored.
    pub fn handle_proof_verified(&mut self, log: &EventLog)
        requires
            old(self).wf(),
            log.topics@.len() >= 2 ==> be_value(topic(log, 1)) <= u64::MAX,
        ensures
            final(self).wf(),
            final(self)@ == after_proof_verified(old(self)@, log),
    {
        if log.topics.len() < 2 || log.data.len() < 32 {
            return;
        }
        let task_id = be_to_u64(log.topics[1].as_slice());
        let success = be_bounded(&log.data.as_slice()[0..32], 0).is_none();
        assert(success == verdict(log));
        let ghost old_tasks = self.tasks@;
        match self.tasks.get(&task_id) {
            Some(task) => {
                let mut t = task.duplicate();
                if success {
                    t.status = String::from_str("Completed");
                    t.proof_verified = true;
                } else {
                    t.status = String::from_str("Disputed");
                    t.proof_verified = false;
                }
                proof {
                    reveal_strlit("Completed");
                    reveal_strlit("Disputed");
                    assert("Completed"@ =~= completed());
                    assert("Disputed"@ =~= disputed());
                    assert(*task == old_tasks[task_id]);
                    assert(self@.tasks.contains_key(task_id));
                    assert(self@.tasks[task_id].id == task_id);
                }
                assert(t@ == judged_task(old_tasks[task_id]@, success));
                self.tasks.insert(task_id, t);
                assert(self@.tasks =~= old_tasks.map_values(|t: Task| t@).insert(task_id, t@));
            },
            None => {},
        }
        assert(self@.schemas =~= old(self)@.schemas);
    }

    /// Indexes a SchemaAdded event: the schema is filed under its id (topic
    /// 1), created by topic 2, active, with the name and server host read
    /// from the data, an empty description and null JSON documents. A log
    /// with fewer than three topics is ignored.
    pub fn handle_schema_added(&mut self, log: &EventLog)
        requires
            old(self).wf(),
            log.topics@.len() >= 3 ==> be_value(topic(log, 1)) <= u64::MAX,
        ensures
            final(self).wf(),
            final(self)@ == after_schema_added(old(self)@, log),
    {
        if log.topics.len() < 3 {
            return;
        }
        let schema_id = be_to_u64(log.topics[1].as_slice());
        let creator = word_debug(&log.topics[2]);
        let schema = Schema {
            id: schema_id,
            name: abi_text(log.data.as_slice(), 0),
            description: String::new(),
            server_host: abi_text(log.data.as_slice(), 1),
            request_schema: String::from_str("null"),
            response_schema: String::from_str("null"),
            creator,
            created_at: match log.block_number {
                Some(b) => b,
                None => 0,
            },
            active: true,
        };
        assert(schema@ == added_schema(log));
        let ghost old_schemas = self.schemas@;
        self.schemas.insert(schema_id, schema);
        assert(self@.schemas =~= old_schemas.map_values(|s: Schema| s@).insert(schema_id, schema@));
        assert(self@.tasks =~= old(self)@.tasks);
        assert(self@.agents =~= old(self)@.agents);
        assert forall|k: u64| #[trigger] self@.schemas.contains_key(k) implies self@.schemas[k].id == k by {
            if k != schema_id {
                assert(old(self)@.schemas.contains_key(k));
            }
        }
    }

    /// Indexes one log: its first topic, the Keccak-256 hash of an event's
    /// signature, picks the handler of AgentRegistered, AgentDeregistered,
    /// TaskCreated, TaskApplied, ProofSubmitted, ProofVerified or
    /// SchemaAdded. A log of any other event leaves the index as it is.
    pub fn process_log(&mut self, log: &EventLog)
        requires
            old(self).wf(),
            log_fits(log),
        ensures
            final(self).wf(),
            final(self)@ == after_log(old(self)@, log),
    {
        if log.topics.len() == 0 {
            return;
        }
        let t = &log.topics[0];
        if words_eq(t, &event_topic_of("AgentRegistered(address,bytes,uint256)")) {
            self.handle_agent_registered(log);
        } else if words_eq(t, &event_topic_of("AgentDeregistered(address,uint256)")) {
            self.handle_agent_deregistered(log);
        } else if words_eq(t, &event_topic_of("TaskCreated(uint256,address,uint256,uint256,uint256)")) {
            self.handle_task_created(log);
        } else if words_eq(t, &event_topic_of("TaskApplied(uint256,address)")) {
            self.handle_task_applied(log);
        } else if words_eq(t, &event_topic_of("ProofSubmitted(uint256,address,bytes)")) {
            self.handle_proof_submitted(log);
        } else if words_eq(t, &event_topic_of("ProofVerified(uint256,bool)")) {
            self.handle_proof_verified(log);
        } else if words_eq(t, &event_topic_of("SchemaAdded(uint256,string,string,address)")) {
            self.handle_schema_added(log);
        }
    }

    /// Indexes one log where its numbers fit the index (see [`log_fits`]);
    /// otherwise leaves the index as it is and answers false.
    pub fn try_process_log(&mut self, log: &EventLog) -> (ok: bool)
        requires
            old(self).wf(),
        ensures
            final(self).wf(),
            ok == log_fits(log),
            final(self)@ == (if ok {
                after_log(old(self)@, log)
            } else {
                old(self)@
            }),
    {
        if log_in_range(log) {
            self.process_log(log);
            true
        } else {
            false
        }
    }

    /// The last block fully synced.
    pub fn last_synced_block(&self) -> (b: u64)
        ensures
            b == self@.last_synced_block,
    {
        self.last_synced_block
    }

    /// Records the last block fully synced.
    pub fn set_last_synced_block(&mut self, block: u64)
        requires
            old(self).wf(),
        ensures
            final(self).wf(),
            final(self)@ == (StoreView { last_synced_block: block, ..old(self)@ }),
    {
        self.last_synced_block = block;
    }

    /// The answer of the health endpoint: status "ok" and the last block
    /// synced.
    pub fn health_check(&self) -> (r: HealthResponse)
        ensures
            r.status@ == seq!['o', 'k'],
            r.last_synced_block == self@.last_synced_block,
    {
        let status = String::from_str("ok");
        proof {
            reveal_strlit("ok");
            assert("ok"@ =~= seq!['o', 'k']);
        }
        HealthResponse { status, last_synced_block: self.last_synced_block }
    }

    /// The agent registered under `address` (compared in lowercase).
    pub fn get_agent(&self, address: &str) -> (r: Option<Agent>)
        requires
            self.wf(),
        ensures
            ({
                let a = crate::models::spec_lowercase(address@);
                match r {
                    Some(agent) => has_agent(self@.agents, a) && agent@ == self@.agents[agent_pos(
                        self@.agents,
                        a,
                    )],
                    None => !has_agent(self@.agents, a),
                }
            }),
    {
        let key = crate::models::to_lowercase(address);
        match self.find_agent(&key) {
            Some(i) => {
                proof {
                    let p = agent_pos(self@.agents, key@);
                    assert(has_agent(self@.agents, key@));
                    if p != i {
                        if p < i {
                            assert(self@.agents[p].address != self@.agents[i as int].address);
                        } else {
                            assert(self@.agents[i as int].address != self@.agents[p].address);
                        }
                    }
                }
                assert(self@.agents[i as int] == self.agents@[i as int]@);
                Some(self.agents[i].duplicate())
            },
            None => None,
        }
    }

    /// The task filed under `id`.
    pub fn get_task(&self, id: u64) -> (r: Option<Task>)
        ensures
            match r {
                Some(t) => self@.tasks.contains_key(id) && t@ == self@.tasks[id],
                None => !self@.tasks.contains_key(id),
            },
    {
        match self.tasks.get(&id) {
            Some(t) => Some(t.duplicate()),
            None => None,
        }
    }

    /// The schema filed under `id`.
    pub fn get_schema(&self, id: u64) -> (r: Option<Schema>)
        ensures
            match r {
                Some(s) => self@.schemas.contains_key(id) && s@ == self@.schemas[id],
                None => !self@.schemas.contains_key(id),
            },
    {
        match self.schemas.get(&id) {
            Some(s) => Some(s.duplicate()),
            None => None,
        }
    }

    /// One page of the agents, filtered by activity where asked, in index
    /// order.
    pub fn list_agents(&self, q: &AgentQuery) -> (r: PaginatedResponse<Agent>)
        requires
            query_fits(q.page, q.limit),
        ensures
            r.page == spec_page(q.page),
            r.limit == spec_limit(q.limit),
            r.total == selected_agents(self@, q.active).len(),
            r.data@.map_values(|a: Agent| a@) == page_of(
                selected_agents(self@, q.active),
                page_start(q.page, q.limit),
                spec_limit(q.limit) as int,
            ),
    {
        let ghost pred = |a: AgentView|
            match q.active {
                Some(b) => a.active == b,
                None => true,
            };
        let ghost all = self@.agents;
        let mut selected: Vec<Agent> = Vec::new();
        let mut i: usize = 0;
        while i < self.agents.len()
            invariant
                all == self@.agents,
                all.len() == self.agents@.len(),
                i <= all.len(),
                pred == (|a: AgentView|
                    match q.active {
                        Some(b) => a.active == b,
                        None => true,
                    }),
                selected@.map_values(|a: Agent| a@) == all.take(i as int).filter(pred),
            decreases all.len() - i,
        {
            proof {
                reveal_with_fuel(Seq::<_>::filter, 1);
                assert(all.take(i + 1).drop_last() =~= all.take(i as int));
                assert(all[i as int] == self.agents@[i as int]@);
            }
            let keep = match q.active {
                Some(b) => self.agents[i].active == b,
                None => true,
            };
            if keep {
                let ghost before = selected@;
                selected.push(self.agents[i].duplicate());
                assert(selected@.map_values(|a: Agent| a@) =~= before.map_values(|a: Agent| a@).push(
                    all[i as int],
                ));
            }
            i += 1;
        }
        assert(all.take(all.len() as int) =~= all);
        let ghost sel = selected@.map_values(|a: Agent| a@);
        assert(sel == selected_agents(self@, q.active));
        let (page, limit) = page_and_limit(q.page, q.limit);
        let (a, b) = page_bounds(selected.len(), q.page, q.limit);
        let mut data: Vec<Agent> = Vec::new();
        let mut j: usize = a;
        while j < b
            invariant
                a <= j <= b <= selected@.len(),
                sel == selected@.map_values(|a: Agent| a@),
                data@.map_values(|a: Agent| a@) == sel.subrange(a as int, j as int),
            decreases b - j,
        {
            let ghost before = data@;
            assert(sel[j as int] == selected@[j as int]@);
            let item = selected[j].duplicate();
            data.push(item);
            assert(data@.map_values(|a: Agent| a@) =~= before.map_values(|a: Agent| a@).push(item@));
            assert(sel.subrange(a as int, j + 1) =~= sel.subrange(a as int, j as int).push(sel[j as int]));
            j += 1;
        }
        PaginatedResponse { data, page, limit, total: selected.len() as u64 }
    }


    /// One page of the tasks, filtered by status where asked, in decreasing
    /// id order (newest first).
    pub fn list_tasks(&self, q: &TaskQuery) -> (r: PaginatedResponse<Task>)
        requires
            self.wf(),
            query_fits(q.page, q.limit),
        ensures
            r.page == spec_page(q.page),
            r.limit == spec_limit(q.limit),
            exists|ks: Seq<u64>|
                #![trigger is_desc_enumeration(ks, selected_task_ids(self@, opt_view(q.status)))]
                {
                    &&& is_desc_enumeration(ks, selected_task_ids(self@, opt_view(q.status)))
                    &&& r.total == ks.len()
                    &&& r.data@.map_values(|t: Task| t@) == page_of(
                        ks.map_values(|k: u64| self@.tasks[k]),
                        page_start(q.page, q.limit),
                        spec_limit(q.limit) as int,
                    )
                },
    {
        let ghost status = opt_view(q.status);
        let ghost sel_set = selected_task_ids(self@, status);
        let ids = self.task_ids();
        let mut sel: Vec<u64> = Vec::new();
        let mut i: usize = 0;
        while i < ids.len()
            invariant
                ids@.to_set() == self@.tasks.dom(),
                ids@.no_duplicates(),
                status == opt_view(q.status),
                sel_set == selected_task_ids(self@, status),
                i <= ids@.len(),
                sel@.no_duplicates(),
                forall|x: u64|
                    #[trigger] sel@.contains(x) <==> (ids@.take(i as int).contains(x) && sel_set.contains(
                        x,
                    )),
            decreases ids@.len() - i,
        {
            let ghost before = sel@;
            let k = ids[i];
            assert(ids@.to_set().contains(k));
            let t = self.tasks.get(&k).unwrap();
            assert(self@.tasks[k] == t@);
            let keep = match &q.status {
                Some(st) => t.status == *st,
                None => true,
            };
            assert(keep == sel_set.contains(k));
            proof {
                if sel@.contains(k) {
                    let j = choose|j: int| 0 <= j < i && ids@.take(i as int)[j] == k;
                    assert(ids@[j] == ids@[i as int]);
                }
            }
            if keep {
                sel.push(k);
            }
            assert forall|x: u64| sel@.contains(x) <==> (before.contains(x) || (keep && x == k)) by {
                if keep {
                    if sel@.contains(x) {
                        let j = choose|j: int| 0 <= j < sel@.len() && #[trigger] sel@[j] == x;
                        if j < before.len() {
                            assert(before[j] == x);
                        }
                    }
                    if before.contains(x) {
                        let j = choose|j: int| 0 <= j < before.len() && #[trigger] before[j] == x;
                        assert(sel@[j] == x);
                    }
                    if x == k {
                        assert(sel@[before.len() as int] == x);
                    }
                }
            }
            assert forall|x: u64|
                ids@.take(i + 1).contains(x) <==> (ids@.take(i as int).contains(x) || x == k) by {
                if ids@.take(i + 1).contains(x) {
                    let j = choose|j: int| 0 <= j < i + 1 && #[trigger] ids@.take(i + 1)[j] == x;
                    if j < i {
                        assert(ids@.take(i as int)[j] == x);
                    }
                }
                if ids@.take(i as int).contains(x) {
                    let j = choose|j: int| 0 <= j < i && #[trigger] ids@.take(i as int)[j] == x;
                    assert(ids@.take(i + 1)[j] == x);
                }
                if x == k {
                    assert(ids@.take(i + 1)[i as int] == x);
                }
            }
            assert forall|x: u64|
                #[trigger] sel@.contains(x) <==> (ids@.take(i + 1).contains(x) && sel_set.contains(x)) by {
                assert(before.contains(x) <==> (ids@.take(i as int).contains(x) && sel_set.contains(x)));
            }
            i += 1;
        }
        assert(ids@.take(ids@.len() as int) =~= ids@);
        assert(sel@.to_set() =~= sel_set);
        let sorted = sort_desc(&sel);
        let ghost items = sorted@.map_values(|k: u64| self@.tasks[k]);
        let (page, limit) = page_and_limit(q.page, q.limit);
        let (a, b) = page_bounds(sorted.len(), q.page, q.limit);
        let mut data: Vec<Task> = Vec::new();
        let mut j: usize = a;
        while j < b
            invariant
                a <= j <= b <= sorted@.len(),
                items == sorted@.map_values(|k: u64| self@.tasks[k]),
                sorted@.to_set() == sel_set,
                sel_set.subset_of(self@.tasks.dom()),
                data@.map_values(|t: Task| t@) == items.subrange(a as int, j as int),
            decreases b - j,
        {
            let k = sorted[j];
            assert(sorted@.to_set().contains(k));
            let t = self.tasks.get(&k).unwrap();
            let ghost before = data@;
            let item = t.duplicate();
            data.push(item);
            assert(data@.map_values(|t: Task| t@) =~= before.map_values(|t: Task| t@).push(item@));
            assert(items.subrange(a as int, j + 1) =~= items.subrange(a as int, j as int).push(items[j as int]));
            j += 1;
        }
        PaginatedResponse { data, page, limit, total: sorted.len() as u64 }
    }

    /// One page of the schemas, filtered by activity where asked, in decreasing
    /// id order (newest first).
    pub fn list_schemas(&self, q: &SchemaQuery) -> (r: PaginatedResponse<Schema>)
        requires
            self.wf(),
            query_fits(q.page, q.limit),
        ensures
            r.page == spec_page(q.page),
            r.limit == spec_limit(q.limit),
            exists|ks: Seq<u64>|
                #![trigger is_desc_enumeration(ks, selected_schema_ids(self@, q.active))]
                {
                    &&& is_desc_enumeration(ks, selected_schema_ids(self@, q.active))
                    &&& r.total == ks.len()
                    &&& r.data@.map_values(|t: Schema| t@) == page_of(
                        ks.map_values(|k: u64| self@.schemas[k]),
                        page_start(q.page, q.limit),
                        spec_limit(q.limit) as int,
                    )
                },
    {
        let ghost active = q.active;
        let ghost sel_set = selected_schema_ids(self@, active);
        let ids = self.schema_ids();
        let mut sel: Vec<u64> = Vec::new();
        let mut i: usize = 0;
        while i < ids.len()
            invariant
                ids@.to_set() == self@.schemas.dom(),
                ids@.no_duplicates(),
                active == q.active,
                sel_set == selected_schema_ids(self@, active),
                i <= ids@.len(),
                sel@.no_duplicates(),
                forall|x: u64|
                    #[trigger] sel@.contains(x) <==> (ids@.take(i as int).contains(x) && sel_set.contains(
                        x,
                    )),
            decreases ids@.len() - i,
        {
            let ghost before = sel@;
            let k = ids[i];
            assert(ids@.to_set().contains(k));
            let t = self.schemas.get(&k).unwrap();
            assert(self@.schemas[k] == t@);
            let keep = match q.active {
                Some(b) => t.active == b,
                None => true,
            };
            assert(keep == sel_set.contains(k));
            proof {
                if sel@.contains(k) {
                    let j = choose|j: int| 0 <= j < i && ids@.take(i as int)[j] == k;
                    assert(ids@[j] == ids@[i as int]);
                }
            }
            if keep {
                sel.push(k);
            }
            assert forall|x: u64| sel@.contains(x) <==> (before.contains(x) || (keep && x == k)) by {
                if keep {
                    if sel@.contains(x) {
                        let j = choose|j: int| 0 <= j < sel@.len() && #[trigger] sel@[j] == x;
                        if j < before.len() {
                            assert(before[j] == x);
                        }
                    }
                    if before.contains(x) {
                        let j = choose|j: int| 0 <= j < before.len() && #[trigger] before[j] == x;
                        assert(sel@[j] == x);
                    }
                    if x == k {
                        assert(sel@[before.len() as int] == x);
                    }
                }
            }
            assert forall|x: u64|
                ids@.take(i + 1).contains(x) <==> (ids@.take(i as int).contains(x) || x == k) by {
                if ids@.take(i + 1).contains(x) {
                    let j = choose|j: int| 0 <= j < i + 1 && #[trigger] ids@.take(i + 1)[j] == x;
                    if j < i {
                        assert(ids@.take(i as int)[j] == x);
                    }
                }
                if ids@.take(i as int).contains(x) {
                    let j = choose|j: int| 0 <= j < i && #[trigger] ids@.take(i as int)[j] == x;
                    assert(ids@.take(i + 1)[j] == x);
                }
                if x == k {
                    assert(ids@.take(i + 1)[i as int] == x);
                }
            }
            assert forall|x: u64|
                #[trigger] sel@.contains(x) <==> (ids@.take(i + 1).contains(x) && sel_set.contains(x)) by {
                assert(before.contains(x) <==> (ids@.take(i as int).contains(x) && sel_set.contains(x)));
            }
            i += 1;
        }
        assert(ids@.take(ids@.len() as int) =~= ids@);
        assert(sel@.to_set() =~= sel_set);
        let sorted = sort_desc(&sel);
        let ghost items = sorted@.map_values(|k: u64| self@.schemas[k]);
        let (page, limit) = page_and_limit(q.page, q.limit);
        let (a, b) = page_bounds(sorted.len(), q.page, q.limit);
        let mut data: Vec<Schema> = Vec::new();
        let mut j: usize = a;
        while j < b
            invariant
                a <= j <= b <= sorted@.len(),
                items == sorted@.map_values(|k: u64| self@.schemas[k]),
                sorted@.to_set() == sel_set,
                sel_set.subset_of(self@.schemas.dom()),
                data@.map_values(|t: Schema| t@) == items.subrange(a as int, j as int),
            decreases b - j,
        {
            let k = sorted[j];
            assert(sorted@.to_set().contains(k));
            let t = self.schemas.get(&k).unwrap();
            let ghost before = data@;
            let item = t.duplicate();
            data.push(item);
            assert(data@.map_values(|t: Schema| t@) =~= before.map_values(|t: Schema| t@).push(item@));
            assert(items.subrange(a as int, j + 1) =~= items.subrange(a as int, j as int).push(items[j as int]));
            j += 1;
        }
        PaginatedResponse { data, page, limit, total: sorted.len() as u64 }
    }

    /// The ids of all tasks, in the map's iteration order.
    fn task_ids(&self) -> (ids: Vec<u64>)
        ensures
            ids@.to_set() == self@.tasks.dom(),
            ids@.no_duplicates(),
    {
        let mut ids: Vec<u64> = Vec::new();
        let ghost full = vstd::std_specs::hash::spec_keys_iter(&self.tasks).remaining();
        for k in it: self.tasks.keys()
            invariant
                it.seq() == full,
                ids@ == it.seq().take(it.index()).map_values(|k: &u64| *k),
        {
            ids.push(*k);
            assert(ids@ =~= it.seq().take(it.index() + 1).map_values(|k: &u64| *k));
        }
        assert(ids@ =~= full.map_values(|k: &u64| *k));
        assert(full.map_values(|k: &u64| *k) =~= full.unref());
        ids
    }

    /// The ids of all schemas, in the map's iteration order.
    fn schema_ids(&self) -> (ids: Vec<u64>)
        ensures
            ids@.to_set() == self@.schemas.dom(),
            ids@.no_duplicates(),
    {
        let mut ids: Vec<u64> = Vec::new();
        let ghost full = vstd::std_specs::hash::spec_keys_iter(&self.schemas).remaining();
        for k in it: self.schemas.keys()
            invariant
                it.seq() == full,
                ids@ == it.seq().take(it.index()).map_values(|k: &u64| *k),
        {
            ids.push(*k);
            assert(ids@ =~= it.seq().take(it.index() + 1).map_values(|k: &u64| *k));
        }
        assert(ids@ =~= full.map_values(|k: &u64| *k));
        assert(full.map_values(|k: &u64| *k) =~= full.unref());
        ids
    }
}

/// No two agents of the list carry the same address.
pub open spec fn unique_addresses(agents: Seq<AgentView>) -> bool {
    forall|i: int, j: int|
        0 <= i < j < agents.len() ==> #[trigger] agents[i].address != #[trigger] agents[j].address
}

/// In a list without repeated addresses, the agent carrying an address is
/// the one at any position that carries it.
proof fn lemma_agent_pos_unique(agents: Seq<AgentView>, addr: Seq<char>, i: int)
    requires
        unique_addresses(agents),
        0 <= i < agents.len(),
        agents[i].address == addr,
    ensures
        has_agent(agents, addr),
        agent_pos(agents, addr) == i,
{
    let p = agent_pos(agents, addr);
    if p != i {
        if p < i {
            assert(agents[p].address != agents[i].address);
        } else {
            assert(agents[i].address != agents[p].address);
        }
    }
}

/// Filing an agent keeps addresses unique and leaves it on file.
proof fn lemma_upsert(agents: Seq<AgentView>, a: AgentView)
    requires
        unique_addresses(agents),
    ensures
        unique_addresses(upsert_agent(agents, a)),
        has_agent(upsert_agent(agents, a), a.address),
        upsert_agent(agents, a)[agent_pos(upsert_agent(agents, a), a.address)] == a,
{
    let r = upsert_agent(agents, a);
    if has_agent(agents, a.address) {
        let p = agent_pos(agents, a.address);
        assert forall|i: int, j: int| 0 <= i < j < r.len() implies #[trigger] r[i].address
            != #[trigger] r[j].address by {
            if i == p {
                assert(agents[j].address != agents[p].address);
            } else if j == p {
                assert(agents[i].address != agents[p].address);
            } else {
                assert(agents[i].address != agents[j].address);
            }
        }
        lemma_agent_pos_unique(r, a.address, p);
    } else {
        assert forall|i: int, j: int| 0 <= i < j < r.len() implies #[trigger] r[i].address
            != #[trigger] r[j].address by {
            if j == agents.len() {
                assert(agents[i].address != a.address);
            } else {
                assert(agents[i].address != agents[j].address);
            }
        }
        lemma_agent_pos_unique(r, a.address, agents.len() as int);
    }
}

/// Registering an agent and then deregistering the same address leaves it
/// on file with the registration's data, inactive; the list keeps its
/// length across the deregistration.
pub proof fn lemma_register_then_deregister(v: StoreView, reg: &EventLog, dereg: &EventLog)
    requires
        store_wf(v),
        reg.topics@.len() >= 2,
        dereg.topics@.len() >= 2,
        topic(dereg, 1) == topic(reg, 1),
    ensures
        ({
            let addr = agent_address(topic(reg, 1));
            let registered = upsert_agent(v.agents, registered_agent(reg));
            let after = deactivate_agent(registered, agent_address(topic(dereg, 1)));
            &&& after.len() == registered.len()
            &&& has_agent(after, addr)
            &&& after[agent_pos(after, addr)] == AgentView { active: false, ..registered_agent(reg) }
        }),
{
    let a = registered_agent(reg);
    let addr = a.address;
    let registered = upsert_agent(v.agents, a);
    lemma_upsert(v.agents, a);
    let p = agent_pos(registered, addr);
    let after = deactivate_agent(registered, addr);
    assert(after[p].address == addr);
    assert forall|i: int, j: int| 0 <= i < j < after.len() implies #[trigger] after[i].address
        != #[trigger] after[j].address by {
        assert(registered[i].address != registered[j].address);
    }
    lemma_agent_pos_unique(after, addr, p);
}

/// The life of a task: created by a TaskCreated log, applied for by a
/// TaskApplied log, its proof submitted (a ProofSubmitted log changes
/// nothing) and judged by a ProofVerified log for its id, it is on file with
/// the applicant as executor, completed with its proof verified where the
/// verdict is true and disputed otherwise, and every other field as created.
pub proof fn lemma_task_lifecycle(
    v: StoreView,
    created: &EventLog,
    applied: &EventLog,
    verified: &EventLog,
)
    requires
        created.topics@.len() >= 3,
        applied.topics@.len() >= 3,
        verified.topics@.len() >= 2,
        verified.data@.len() >= 32,
        task_created_fits(created),
        be_value(topic(applied, 1)) == be_value(topic(created, 1)),
        be_value(topic(verified, 1)) == be_value(topic(created, 1)),
    ensures
        ({
            let id = created_task(created).id;
            let after = after_proof_verified(
                after_task_applied(after_task_created(v, created), applied),
                verified,
            );
            let executor = Some(spec_word_debug(topic(applied, 2)));
            &&& after.tasks.contains_key(id)
            &&& after.tasks[id] == (if verdict(verified) {
                TaskView {
                    status: completed(),
                    proof_verified: true,
                    executor,
                    ..created_task(created)
                }
            } else {
                TaskView {
                    status: disputed(),
                    proof_verified: false,
                    executor,
                    ..created_task(created)
                }
            })
        }),
{
}

/// Pages 1 to `k` of a listing, one after the other.
pub open spec fn pages_upto<T>(s: Seq<T>, limit: int, k: nat) -> Seq<T>
    decreases k,
{
    if k == 0 {
        seq![]
    } else {
        pages_upto(s, limit, (k - 1) as nat) + page_of(s, (k - 1) * limit, limit)
    }
}

/// Consecutive pages partition a listing: for a page size of at least one,
/// pages 1 to `k` laid end to end are the listing's first `k` pages' worth
/// of items, so once `k` pages cover it they are the whole listing, each
/// item once and in order; page `k` holds the page size of items, or what
/// is left.
pub proof fn lemma_pages_partition<T>(s: Seq<T>, limit: int, k: nat)
    requires
        limit >= 1,
    ensures
        pages_upto(s, limit, k) == s.subrange(
            0,
            if k * limit < s.len() {
                k * limit
            } else {
                s.len() as int
            },
        ),
        k * limit >= s.len() ==> pages_upto(s, limit, k) == s,
        k >= 1 ==> page_of(s, (k - 1) * limit, limit).len() == (if k * limit <= s.len() {
            limit
        } else if (k - 1) * limit < s.len() {
            s.len() - (k - 1) * limit
        } else {
            0
        }),
    decreases k,
{
    assert((k - 1) * limit + limit == k * limit) by (nonlinear_arith);
    assert(k >= 1 ==> (k - 1) * limit >= 0) by (nonlinear_arith)
        requires
            limit >= 1,
    ;
    if k > 0 {
        lemma_pages_partition(s, limit, (k - 1) as nat);
        let a = if (k - 1) * limit < s.len() {
            (k - 1) * limit
        } else {
            s.len() as int
        };
        let b = if k * limit < s.len() {
            k * limit
        } else {
            s.len() as int
        };
        let km1 = (k - 1) as nat;
        assert(km1 * limit == (k - 1) * limit);
        assert(pages_upto(s, limit, km1) == s.subrange(0, a));
        assert(pages_upto(s, limit, k) == pages_upto(s, limit, km1) + page_of(s, (k - 1) * limit, limit));
        assert(page_of(s, (k - 1) * limit, limit) == s.subrange(a, b));
        assert(s.subrange(0, a) + s.subrange(a, b) =~= s.subrange(0, b));
        assert(pages_upto(s, limit, k) == s.subrange(0, b));
    } else {
        assert(k * limit == 0) by (nonlinear_arith)
            requires
                k == 0,
        ;
        assert(s.subrange(0, 0) =~= Seq::<T>::empty());
    }
    if k * limit >= s.len() {
        assert(s.subrange(0, s.len() as int) =~= s);
    }
}

/// Where the offset of a page fits the machine word, the listings start
/// page `p` (of size `l`, at most 100) at item `(p - 1) * l`.
pub proof fn lemma_page_start(p: u64, l: u64)
    requires
        p >= 1,
        l <= 100,
        (p - 1) * l <= usize::MAX,
    ensures
        page_start(Some(p), Some(l)) == (p - 1) * l,
{
    assert((p - 1) * l <= u64::MAX) by (nonlinear_arith)
        requires
            p >= 1,
            l <= 100,
            p <= u64::MAX,
            (p - 1) * l <= usize::MAX,
    ;
}

} // verus!
