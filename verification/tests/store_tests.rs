use agent_marketplace::models::{AgentQuery, EventLog, SchemaQuery, TaskQuery};
use agent_marketplace::store::{log_in_range, query_in_range, Store};

fn word(n: u64) -> [u8; 32] {
    let mut w = [0u8; 32];
    w[24..].copy_from_slice(&n.to_be_bytes());
    w
}

fn addr(b: u8) -> [u8; 32] {
    let mut w = [0u8; 32];
    for (i, x) in w.iter_mut().enumerate().skip(12) {
        *x = b.wrapping_add(i as u8);
    }
    w
}

fn debug(w: &[u8; 32]) -> String {
    format!("0x{}", hex::encode(w))
}

fn agent(w: &[u8; 32]) -> String {
    format!("0x{}", hex::encode(&w[12..]))
}

fn topic_of(sig: &str) -> [u8; 32] {
    alloy::primitives::keccak256(sig.as_bytes()).0
}

fn abi_strings(a: &str, b: &str) -> Vec<u8> {
    fn padded(s: &str) -> Vec<u8> {
        let mut v = word(s.len() as u64).to_vec();
        v.extend_from_slice(s.as_bytes());
        while v.len() % 32 != 0 {
            v.push(0);
        }
        v
    }
    let pa = padded(a);
    let mut data = word(64).to_vec();
    data.extend_from_slice(&word(64 + pa.len() as u64));
    data.extend(pa);
    data.extend(padded(b));
    data
}

fn log(topics: Vec<[u8; 32]>, data: Vec<u8>, block: Option<u64>) -> EventLog {
    EventLog { topics, data, block_number: block }
}

fn event() -> [u8; 32] {
    [0xee; 32]
}

fn task_log(id: u64, poster: u8, reward: [u8; 32], schema: u64, deadline: u64) -> EventLog {
    let mut data = reward.to_vec();
    data.extend_from_slice(&word(schema));
    data.extend_from_slice(&word(deadline));
    log(vec![event(), word(id), addr(poster)], data, Some(100 + id))
}

#[test]
fn a_new_store_is_empty() {
    let s = Store::new();
    assert_eq!(s.last_synced_block(), 0);
    let h = s.health_check();
    assert_eq!(h.status, "ok");
    assert_eq!(h.last_synced_block, 0);
    let page = s.list_agents(&AgentQuery { active: None, page: None, limit: None });
    assert_eq!(page.total, 0);
    assert!(page.data.is_empty());
    assert!(s.get_task(1).is_none());
    assert!(s.get_schema(1).is_none());
}

#[test]
fn registering_files_an_active_agent() {
    let mut s = Store::new();
    s.handle_agent_registered(&log(vec![event(), addr(0xab)], vec![], Some(42)));
    let a = s.get_agent(&agent(&addr(0xab))).unwrap();
    assert_eq!(a.address, agent(&addr(0xab)));
    assert_eq!(a.address.len(), 42);
    assert_eq!(a.tee_public_key, "0x");
    assert_eq!(a.metadata_uri, None);
    assert_eq!(a.registered_at, 42);
    assert!(a.active);
}

#[test]
fn registering_reads_the_tee_public_key_from_the_data() {
    let mut s = Store::new();
    // bytes teePublicKey, uint256 timestamp: offset, timestamp, length, bytes.
    let mut data = word(64).to_vec();
    data.extend_from_slice(&word(1_700_000_000));
    data.extend_from_slice(&word(3));
    let mut key = [0u8; 32];
    key[..3].copy_from_slice(&[0x04, 0xab, 0xcd]);
    data.extend_from_slice(&key);
    s.handle_agent_registered(&log(vec![event(), addr(7)], data, Some(3)));
    assert_eq!(s.get_agent(&agent(&addr(7))).unwrap().tee_public_key, "0x04abcd");
}

#[test]
fn agents_are_found_whatever_the_case_of_the_address() {
    let mut s = Store::new();
    s.handle_agent_registered(&log(vec![event(), addr(0xab)], vec![], None));
    let upper = agent(&addr(0xab)).to_uppercase();
    let a = s.get_agent(&upper).unwrap();
    assert_eq!(a.registered_at, 0);
    assert!(s.get_agent("0xdead").is_none());
}

#[test]
fn registering_then_deregistering_leaves_the_agent_inactive() {
    let mut s = Store::new();
    s.handle_agent_registered(&log(vec![event(), addr(1)], vec![], Some(5)));
    s.handle_agent_deregistered(&log(vec![event(), addr(1)], vec![], Some(6)));
    let a = s.get_agent(&agent(&addr(1))).unwrap();
    assert!(!a.active);
    assert_eq!(a.registered_at, 5);
}

#[test]
fn registering_again_replaces_the_agent() {
    let mut s = Store::new();
    s.handle_agent_registered(&log(vec![event(), addr(1)], vec![], Some(5)));
    s.handle_agent_deregistered(&log(vec![event(), addr(1)], vec![], None));
    s.handle_agent_registered(&log(vec![event(), addr(1)], vec![], Some(9)));
    let page = s.list_agents(&AgentQuery { active: None, page: None, limit: None });
    assert_eq!(page.total, 1);
    assert!(page.data[0].active);
    assert_eq!(page.data[0].registered_at, 9);
}

#[test]
fn deregistering_an_unknown_agent_changes_nothing() {
    let mut s = Store::new();
    s.handle_agent_registered(&log(vec![event(), addr(1)], vec![], Some(5)));
    s.handle_agent_deregistered(&log(vec![event(), addr(2)], vec![], None));
    assert!(s.get_agent(&agent(&addr(1))).unwrap().active);
    assert!(s.get_agent(&agent(&addr(2))).is_none());
}

#[test]
fn logs_with_too_few_topics_are_ignored() {
    let mut s = Store::new();
    s.handle_agent_registered(&log(vec![event()], vec![], Some(1)));
    s.handle_task_created(&log(vec![event(), word(1)], vec![], Some(1)));
    s.handle_schema_added(&log(vec![event(), word(1)], vec![], Some(1)));
    assert_eq!(s.list_agents(&AgentQuery { active: None, page: None, limit: None }).total, 0);
    assert!(s.get_task(1).is_none());
    assert!(s.get_schema(1).is_none());
}

#[test]
fn a_created_task_reads_its_words() {
    let mut s = Store::new();
    let mut reward = [0u8; 32];
    reward[24..].copy_from_slice(&1_000_000_000_000_000_000u64.to_be_bytes());
    s.handle_task_created(&task_log(7, 3, reward, 2, 1_700_000_000));
    let t = s.get_task(7).unwrap();
    assert_eq!(t.id, 7);
    assert_eq!(t.poster, debug(&addr(3)));
    assert_eq!(t.reward, "1000000000000000000");
    assert_eq!(t.schema_id, 2);
    assert_eq!(t.deadline, 1_700_000_000);
    assert_eq!(t.created_at, 107);
    assert_eq!(t.status, "Open");
    assert_eq!(t.executor, None);
    assert!(!t.proof_verified);
}

#[test]
fn a_reward_beyond_64_bits_is_written_in_full() {
    let mut s = Store::new();
    let mut reward = [0u8; 32];
    reward[0] = 1;
    s.handle_task_created(&task_log(1, 3, reward, 0, 0));
    assert_eq!(
        s.get_task(1).unwrap().reward,
        "452312848583266388373324160190187140051835877600158453279131187530910662656"
    );
}

#[test]
fn a_task_created_with_short_data_gets_zeros() {
    let mut s = Store::new();
    s.handle_task_created(&log(vec![event(), word(4), addr(1)], vec![0; 31], None));
    let t = s.get_task(4).unwrap();
    assert_eq!(t.reward, "0");
    assert_eq!(t.schema_id, 0);
    assert_eq!(t.deadline, 0);
}

#[test]
fn a_task_goes_from_open_to_in_progress_to_completed() {
    let mut s = Store::new();
    s.handle_task_created(&task_log(9, 1, word(5), 1, 2));
    s.handle_task_applied(&log(vec![event(), word(9), addr(8)], vec![], None));
    let t = s.get_task(9).unwrap();
    assert_eq!(t.status, "InProgress");
    assert_eq!(t.executor, Some(debug(&addr(8))));
    s.handle_proof_submitted(&log(vec![event(), word(9), addr(8)], vec![], None));
    let t = s.get_task(9).unwrap();
    assert_eq!(t.status, "InProgress");
    assert!(!t.proof_verified);
    s.handle_proof_verified(&log(vec![event(), word(9)], word(1).to_vec(), None));
    let t = s.get_task(9).unwrap();
    assert_eq!(t.status, "Completed");
    assert!(t.proof_verified);
    assert_eq!(t.executor, Some(debug(&addr(8))));
    assert_eq!(t.reward, "5");
}

#[test]
fn events_on_unknown_tasks_change_nothing() {
    let mut s = Store::new();
    s.handle_task_applied(&log(vec![event(), word(3), addr(8)], vec![], None));
    s.handle_proof_submitted(&log(vec![event(), word(3)], vec![], None));
    s.handle_proof_verified(&log(vec![event(), word(3)], word(1).to_vec(), None));
    assert!(s.get_task(3).is_none());
}

#[test]
fn an_added_schema_is_active_and_empty() {
    let mut s = Store::new();
    let data = abi_strings("github-stars", "api.github.com");
    s.handle_schema_added(&log(vec![event(), word(12), addr(4)], data, Some(77)));
    let sc = s.get_schema(12).unwrap();
    assert_eq!(sc.id, 12);
    assert_eq!(sc.name, "github-stars");
    assert_eq!(sc.description, "");
    assert_eq!(sc.server_host, "api.github.com");
    assert_eq!(sc.request_schema, "null");
    assert_eq!(sc.response_schema, "null");
    assert_eq!(sc.creator, debug(&addr(4)));
    assert_eq!(sc.created_at, 77);
    assert!(sc.active);
}

#[test]
fn a_schema_whose_strings_cannot_be_read_gets_empty_texts() {
    let mut s = Store::new();
    s.handle_schema_added(&log(vec![event(), word(1), addr(4)], vec![1, 2, 3], None));
    let sc = s.get_schema(1).unwrap();
    assert_eq!(sc.name, "");
    assert_eq!(sc.server_host, "");
    let mut bad = abi_strings("ok", "x");
    bad[64 + 32] = 0xff;
    s.handle_schema_added(&log(vec![event(), word(2), addr(4)], bad, None));
    let sc = s.get_schema(2).unwrap();
    assert_eq!(sc.name, "");
    assert_eq!(sc.server_host, "x");
}

#[test]
fn a_proof_that_fails_verification_disputes_the_task() {
    let mut s = Store::new();
    s.handle_task_created(&task_log(4, 1, word(1), 0, 0));
    s.handle_task_applied(&log(vec![event(), word(4), addr(2)], vec![], None));
    s.handle_proof_verified(&log(vec![event(), word(4)], word(0).to_vec(), None));
    let t = s.get_task(4).unwrap();
    assert_eq!(t.status, "Disputed");
    assert!(!t.proof_verified);
    // A log without the verdict word is ignored.
    s.handle_proof_verified(&log(vec![event(), word(4)], vec![], None));
    assert_eq!(s.get_task(4).unwrap().status, "Disputed");
}

#[test]
fn process_log_dispatches_on_the_event_topic() {
    let mut s = Store::new();
    let reg = topic_of("AgentRegistered(address,bytes,uint256)");
    let dereg = topic_of("AgentDeregistered(address,uint256)");
    let created = topic_of("TaskCreated(uint256,address,uint256,uint256,uint256)");
    let applied = topic_of("TaskApplied(uint256,address)");
    let submitted = topic_of("ProofSubmitted(uint256,address,bytes)");
    let verified = topic_of("ProofVerified(uint256,bool)");
    let schema = topic_of("SchemaAdded(uint256,string,string,address)");
    s.process_log(&log(vec![reg, addr(1)], vec![], Some(10)));
    assert!(s.get_agent(&agent(&addr(1))).unwrap().active);
    s.process_log(&log(vec![dereg, addr(1)], vec![], Some(11)));
    assert!(!s.get_agent(&agent(&addr(1))).unwrap().active);
    let mut data = word(500).to_vec();
    data.extend_from_slice(&word(3));
    data.extend_from_slice(&word(99));
    s.process_log(&log(vec![created, word(5), addr(2)], data, Some(12)));
    assert_eq!(s.get_task(5).unwrap().reward, "500");
    s.process_log(&log(vec![applied, word(5), addr(3)], vec![], None));
    assert_eq!(s.get_task(5).unwrap().status, "InProgress");
    s.process_log(&log(vec![submitted, word(5), addr(3)], vec![], None));
    assert_eq!(s.get_task(5).unwrap().status, "InProgress");
    s.process_log(&log(vec![verified, word(5)], word(1).to_vec(), None));
    assert_eq!(s.get_task(5).unwrap().status, "Completed");
    s.process_log(&log(vec![schema, word(8), addr(4)], abi_strings("n", "h"), None));
    assert_eq!(s.get_schema(8).unwrap().server_host, "h");
}

#[test]
fn process_log_passes_over_unknown_events() {
    let mut s = Store::new();
    s.process_log(&log(vec![event(), addr(1)], vec![], Some(1)));
    let mut name = [0u8; 32];
    name[..15].copy_from_slice(b"AgentRegistered");
    s.process_log(&log(vec![name, addr(1)], vec![], Some(1)));
    s.process_log(&log(vec![], vec![], None));
    assert_eq!(s.list_agents(&AgentQuery { active: None, page: None, limit: None }).total, 0);
}

#[test]
fn a_log_whose_id_leaves_64_bits_is_refused() {
    let mut s = Store::new();
    let created = topic_of("TaskCreated(uint256,address,uint256,uint256,uint256)");
    let mut big = [0u8; 32];
    big[23] = 1;
    let l = log(vec![created, big, addr(2)], vec![], None);
    assert!(!log_in_range(&l));
    assert!(!s.try_process_log(&l));
    assert!(s.try_process_log(&log(vec![created, word(1), addr(2)], vec![], None)));
    assert!(s.get_task(1).is_some());
    assert!(log_in_range(&log(vec![event(), big], vec![], None)));
}

#[test]
fn the_last_synced_block_is_kept() {
    let mut s = Store::new();
    s.set_last_synced_block(1234);
    assert_eq!(s.last_synced_block(), 1234);
    assert_eq!(s.health_check().last_synced_block, 1234);
}

#[test]
fn agents_are_listed_in_pages() {
    let mut s = Store::new();
    for i in 0..5u8 {
        s.handle_agent_registered(&log(vec![event(), addr(i)], vec![], Some(i as u64)));
    }
    s.handle_agent_deregistered(&log(vec![event(), addr(1)], vec![], None));
    let all = s.list_agents(&AgentQuery { active: None, page: None, limit: None });
    assert_eq!((all.page, all.limit, all.total), (1, 20, 5));
    let active = s.list_agents(&AgentQuery { active: Some(true), page: Some(1), limit: Some(2) });
    assert_eq!(active.total, 4);
    assert_eq!(active.data.len(), 2);
    assert_eq!(active.data[0].registered_at, 0);
    assert_eq!(active.data[1].registered_at, 2);
    let second = s.list_agents(&AgentQuery { active: Some(true), page: Some(2), limit: Some(2) });
    assert_eq!(second.data.len(), 2);
    assert_eq!(second.data[0].registered_at, 3);
    let past = s.list_agents(&AgentQuery { active: Some(true), page: Some(9), limit: Some(2) });
    assert!(past.data.is_empty());
    assert_eq!(past.total, 4);
    let inactive = s.list_agents(&AgentQuery { active: Some(false), page: None, limit: None });
    assert_eq!(inactive.total, 1);
    assert_eq!(inactive.data[0].registered_at, 1);
}

#[test]
fn a_page_number_of_zero_and_a_large_limit_are_bounded() {
    let mut s = Store::new();
    for i in 0..3u8 {
        s.handle_agent_registered(&log(vec![event(), addr(i)], vec![], None));
    }
    let p = s.list_agents(&AgentQuery { active: None, page: Some(0), limit: Some(500) });
    assert_eq!((p.page, p.limit, p.total), (1, 100, 3));
    assert_eq!(p.data.len(), 3);
    let z = s.list_agents(&AgentQuery { active: None, page: None, limit: Some(0) });
    assert_eq!(z.limit, 0);
    assert!(z.data.is_empty());
}

#[test]
fn tasks_are_listed_newest_id_first() {
    let mut s = Store::new();
    for id in [3u64, 10, 1, 7] {
        s.handle_task_created(&task_log(id, 1, word(1), 0, 0));
    }
    s.handle_task_applied(&log(vec![event(), word(7), addr(2)], vec![], None));
    let all = s.list_tasks(&TaskQuery { status: None, page: None, limit: None });
    assert_eq!(all.total, 4);
    let ids: Vec<u64> = all.data.iter().map(|t| t.id).collect();
    assert_eq!(ids, vec![10, 7, 3, 1]);
    let open = s.list_tasks(&TaskQuery { status: Some("Open".to_string()), page: None, limit: None });
    let ids: Vec<u64> = open.data.iter().map(|t| t.id).collect();
    assert_eq!(ids, vec![10, 3, 1]);
    let page2 = s.list_tasks(&TaskQuery { status: None, page: Some(2), limit: Some(3) });
    let ids: Vec<u64> = page2.data.iter().map(|t| t.id).collect();
    assert_eq!(ids, vec![1]);
    let none = s.list_tasks(&TaskQuery { status: Some("Completed".to_string()), page: None, limit: None });
    assert_eq!(none.total, 0);
}

#[test]
fn schemas_are_listed_newest_id_first() {
    let mut s = Store::new();
    for id in [2u64, 5, 4] {
        s.handle_schema_added(&log(vec![event(), word(id), addr(1)], vec![], None));
    }
    let all = s.list_schemas(&SchemaQuery { active: None, page: None, limit: None });
    let ids: Vec<u64> = all.data.iter().map(|t| t.id).collect();
    assert_eq!(ids, vec![5, 4, 2]);
    let active = s.list_schemas(&SchemaQuery { active: Some(true), page: None, limit: Some(1) });
    assert_eq!(active.total, 3);
    assert_eq!(active.data.len(), 1);
    assert_eq!(active.data[0].id, 5);
    let inactive = s.list_schemas(&SchemaQuery { active: Some(false), page: None, limit: None });
    assert_eq!(inactive.total, 0);
}

#[test]
fn a_task_created_twice_is_replaced() {
    let mut s = Store::new();
    s.handle_task_created(&task_log(1, 1, word(1), 0, 0));
    s.handle_task_applied(&log(vec![event(), word(1), addr(2)], vec![], None));
    s.handle_task_created(&task_log(1, 1, word(2), 0, 0));
    let t = s.get_task(1).unwrap();
    assert_eq!(t.status, "Open");
    assert_eq!(t.reward, "2");
    assert_eq!(s.list_tasks(&TaskQuery { status: None, page: None, limit: None }).total, 1);
}

#[test]
fn a_page_whose_offset_leaves_64_bits_is_out_of_range() {
    assert!(query_in_range(None, None));
    assert!(query_in_range(Some(2), Some(3)));
    assert!(!query_in_range(Some(u64::MAX), Some(100)));
    assert!(query_in_range(Some(u64::MAX), Some(0)));
    assert!(query_in_range(Some(u64::MAX), Some(1)));
}

#[test]
fn consecutive_pages_partition_the_listing() {
    let mut s = Store::new();
    for i in 0..7u8 {
        s.handle_agent_registered(&log(vec![event(), addr(i)], vec![], Some(i as u64)));
    }
    let mut seen = Vec::new();
    for page in 1..=3u64 {
        let p = s.list_agents(&AgentQuery { active: None, page: Some(page), limit: Some(3) });
        assert_eq!(p.total, 7);
        assert_eq!(p.data.len(), if page < 3 { 3 } else { 1 });
        seen.extend(p.data.into_iter().map(|a| a.registered_at));
    }
    assert_eq!(seen, vec![0, 1, 2, 3, 4, 5, 6]);
}
