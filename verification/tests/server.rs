//! The server's rules: who may do what, what is kept apart and what is counted.
use collab::clock::{parse_time, Timestamp};
use collab::server::lease::{
    lease_from_stored, Acquired, LeaseRequest, LeaseRow, Leases, Mark, StoredLease, LEASE_TTL_SECS,
};
use collab::server::messages::{
    delivers, parse_message_rows, store_message, BroadcastMsg, MessageCreate, Messages,
    StoredMessage,
};
use collab::server::presence::{get_roster, Presence, PresenceUpdate};
use collab::server::store::{cleanup_old_messages, get_metrics};
use collab::server::teams::{CreateTeamRequest, Teams, TOKEN_PREFIX_LEN};
use collab::server::todos::{all_hex, parse_todo_rows, StoredTodo, TodoCreate, Todos};
use collab::server::usage::{Usage, UsageReport, MAX_COUNT};
use collab::server::{
    authenticate, extract_token, generate_admin_token, generate_token, hash_fields, hash_token,
    id_from_bytes, is_instance_name, is_valid_identifier, is_valid_recipient, is_valid_team_name,
    new_id, require_admin, to_hex, token_from_bytes, AuthContext, Refusal, MAX_CONTENT_LEN,
    MAX_REFS_COUNT, RECENT_SECS,
};

fn at(offset: i64) -> Timestamp {
    let t = parse_time("2026-04-17T12:00:00Z").unwrap();
    Timestamp { secs: t.secs + offset, nanos: 0 }
}

fn team(name: &str) -> Option<String> {
    Some(name.to_string())
}

// ── Names, hashes and tokens ────────────────────────────────────────────────
#[test]
fn names_are_letters_digits_dashes_and_underscores() {
    assert!(is_valid_identifier("web-dev_1"));
    assert!(is_valid_identifier("w\u{e9}b"));
    assert!(!is_valid_identifier(""));
    assert!(!is_valid_identifier("web dev"));
    assert!(is_instance_name(&"a".repeat(64)) && !is_instance_name(&"a".repeat(65)));
    assert!(is_valid_recipient("all") && is_valid_recipient("webdev"));
    assert!(is_instance_name("webdev") && !is_instance_name("bad name!"));
    assert!(is_valid_team_name("blender") && !is_valid_team_name("bad name"));
}

#[test]
fn limits_count_characters() {
    assert!(is_valid_team_name(&"\u{e9}".repeat(33)) && is_valid_team_name(&"\u{e9}".repeat(64)));
    assert!(!is_valid_team_name(&"\u{e9}".repeat(65)) && !is_valid_team_name(""));
    assert!(is_instance_name(&"\u{e9}".repeat(64)) && !is_instance_name(&"\u{e9}".repeat(65)));
    let mut m = Messages::new();
    let mut payload = MessageCreate {
        sender: "pm".to_string(),
        recipient: "\u{e9}".repeat(64),
        content: "hi".to_string(),
        refs: vec!["\u{e9}".repeat(64)],
    };
    assert!(m.create_message(&None, &payload, at(0)).is_ok());
    payload.refs = vec!["\u{e9}".repeat(65)];
    assert!(matches!(m.create_message(&None, &payload, at(0)), Err(Refusal::BadRequest)));
    payload.refs = vec![];
    payload.recipient = "\u{e9}".repeat(65);
    assert!(matches!(m.create_message(&None, &payload, at(0)), Err(Refusal::BadRequest)));
    let mut p = Presence::new();
    let role = |n: usize| PresenceUpdate { role: Some("\u{e9}".repeat(n)) };
    assert!(p.update_presence(&None, "me", role(256), at(0)).is_ok());
    assert!(matches!(p.update_presence(&None, "me", role(257), at(0)), Err(Refusal::BadRequest)));
}

#[test]
fn new_teams_get_an_identifier_and_a_token() {
    let mut t = Teams::new();
    let admin = AuthContext::legacy();
    let ask = |name: &str| CreateTeamRequest { name: name.to_string() };
    let a = t.create_team(&admin, &ask("a"), at(0)).ok().unwrap();
    assert_eq!((a.team_id.len(), a.token.len()), (36, 67));
    assert!(a.token.starts_with("tm_") && a.team_id.as_bytes()[8] == b'-');
    assert!(matches!(t.create_team(&admin, &ask("a"), at(1)), Err(Refusal::Conflict)));
    assert!(matches!(t.create_team(&admin, &ask("no name"), at(1)), Err(Refusal::BadRequest)));
    let more = t.mint_team_token(&admin, &a.team_id, at(2)).ok().unwrap();
    assert!(more.token.starts_with("tm_") && more.token != a.token);
    assert_eq!(more.token_prefix, &more.token[..TOKEN_PREFIX_LEN]);
    assert!(matches!(t.mint_team_token(&admin, "nobody", at(2)), Err(Refusal::NotFound)));
    let member = t.authenticate(&None, &Some(more.token)).ok().unwrap();
    assert!(matches!(t.mint_team_token(&member, &a.team_id, at(3)), Err(Refusal::Forbidden)));
}

#[test]
fn notices_do_not_repeat_the_task() {
    let mut t = Todos::new();
    let mut m = Messages::new();
    let payload = TodoCreate {
        assigned_by: "pm".to_string(),
        instance: "me".to_string(),
        description: "rewrite the parser from scratch".to_string(),
    };
    let (todo, ping) = t.create_todo(&mut m, &None, &payload, at(0), at(0)).ok().unwrap();
    assert_eq!(todo.id.len(), 36);
    assert_eq!(ping.message.id.len(), 36);
    assert_eq!(ping.message.content, "\u{1f4cb} New task assigned: check your todo list");
    let told = m.list_messages(&None, "me", false, at(1)).ok().unwrap();
    assert_eq!(told.len(), 1);
    assert!(!told[0].content.contains("parser"));
}

#[test]
fn hashes_are_hexadecimal() {
    assert_eq!(to_hex(&vec![0, 15, 16, 255]), "000f10ff");
    assert_eq!(
        hash_token("abc"),
        "ba7816bf8f01cfea414140de5dae2223b00361a396177a9cb410ff61f20015ad"
    );
    assert_eq!(hash_fields("a", "b", "c", ""), "81a3ceacaff9f828dd2fa1019d24d83ea524dcde");
}

#[test]
fn ids_look_like_uuids() {
    let bytes: Vec<u8> = (0..16).collect();
    assert_eq!(id_from_bytes(&bytes), "00010203-0405-0607-0809-0a0b0c0d0e0f");
    let id = new_id();
    assert_eq!(id.len(), 36);
    assert!(id != new_id());
}

#[test]
fn tokens_tell_their_kind() {
    assert!(generate_token().starts_with("tm_"));
    assert!(generate_admin_token().starts_with("adm_"));
    assert!(generate_token() != generate_token());
    assert_eq!(token_from_bytes(&vec![1, 2]), token_from_bytes(&vec![1, 2]));
}

#[test]
fn tokens_come_from_the_header_first() {
    let bearer = Some("Bearer abc".to_string());
    let query = Some("a=b&token=q%3D%2B%2F".to_string());
    assert_eq!(extract_token(&bearer, &query).as_deref(), Some("abc"));
    assert_eq!(extract_token(&None, &query).as_deref(), Some("q=+/"));
    assert!(extract_token(&None, &None).is_none());
}

#[test]
fn refusals_have_codes() {
    let codes: Vec<u16> = [
        Refusal::BadRequest,
        Refusal::Unauthorized,
        Refusal::Forbidden,
        Refusal::NotFound,
        Refusal::Conflict,
        Refusal::Internal,
    ]
    .iter()
    .map(|r| r.status())
    .collect();
    assert_eq!(codes, vec![400, 401, 403, 404, 409, 500]);
}

#[test]
fn only_the_servers_own_space_is_admin() {
    assert!(require_admin(&AuthContext::legacy()).is_ok());
    let refused = require_admin(&AuthContext::for_team("t".to_string()));
    assert!(matches!(refused, Err(Refusal::Forbidden)));
}

// ── Leases ──────────────────────────────────────────────────────────────────
fn lease(instance: &str, pid: i64) -> LeaseRequest {
    LeaseRequest { instance_id: instance.to_string(), pid, host: "test-host".to_string() }
}

#[test]
fn lease_acquires_on_first_call_in_legacy_mode() {
    let mut l = Leases::new();
    match l.acquire_lease(&None, &lease("webdev", 100), at(0)).unwrap() {
        Acquired::Held(state) => {
            assert_eq!(state.team_id, None);
            assert_eq!(state.instance_id, "webdev");
            assert_eq!(state.pid, 100);
            assert!(!state.taken_over);
        }
        Acquired::Taken(_) => panic!("taken"),
    }
}

#[test]
fn lease_same_pid_is_heartbeat() {
    let mut l = Leases::new();
    let _ = l.acquire_lease(&None, &lease("webdev", 100), at(0));
    match l.acquire_lease(&None, &lease("webdev", 100), at(1)).unwrap() {
        Acquired::Held(state) => {
            assert_eq!(state.pid, 100);
            assert!(!state.taken_over);
            assert_eq!(state.acquired_at, at(0));
            assert_eq!(state.last_heartbeat, at(1));
        }
        Acquired::Taken(_) => panic!("taken"),
    }
    assert_eq!(l.rows.len(), 1);
}

#[test]
fn lease_different_pid_fresh_is_conflict() {
    let mut l = Leases::new();
    let _ = l.acquire_lease(&None, &lease("webdev", 100), at(0));
    match l.acquire_lease(&None, &lease("webdev", 200), at(4)).unwrap() {
        Acquired::Taken(conflict) => {
            assert_eq!(conflict.pid, 100);
            assert_eq!(conflict.instance_id, "webdev");
            assert_eq!(conflict.seconds_since_heartbeat, 4);
        }
        Acquired::Held(_) => panic!("held"),
    }
}

#[test]
fn lease_different_pid_stale_is_takeover() {
    let row = LeaseRow {
        team_id: None,
        instance_id: "webdev".to_string(),
        pid: 100,
        host: "old-host".to_string(),
        acquired_at: Mark::At(at(0)),
        last_heartbeat: Mark::At(at(0)),
    };
    let mut l = Leases::from_rows(vec![row]);
    match l.acquire_lease(&None, &lease("webdev", 200), at(LEASE_TTL_SECS + 5)).unwrap() {
        Acquired::Held(state) => {
            assert_eq!(state.pid, 200);
            assert!(state.taken_over, "stale lease should be taken over");
        }
        Acquired::Taken(_) => panic!("taken"),
    }
}

#[test]
fn lease_release_is_idempotent() {
    let mut l = Leases::new();
    let _ = l.acquire_lease(&None, &lease("webdev", 100), at(0));
    assert!(l.release_lease(&None, "webdev", &lease("webdev", 100)).is_ok());
    assert_eq!(l.rows.len(), 0);
    assert!(l.release_lease(&None, "webdev", &lease("webdev", 100)).is_ok());
}

#[test]
fn lease_release_with_wrong_pid_does_not_evict() {
    let mut l = Leases::new();
    let _ = l.acquire_lease(&None, &lease("webdev", 100), at(0));
    let _ = l.release_lease(&None, "webdev", &lease("webdev", 999));
    assert!(matches!(
        l.acquire_lease(&None, &lease("webdev", 100), at(1)),
        Ok(Acquired::Held(_))
    ));
}

#[test]
fn lease_scopes_by_team_id() {
    let mut l = Leases::new();
    let a = l.acquire_lease(&team("team-a"), &lease("webdev", 100), at(0)).unwrap();
    let b = l.acquire_lease(&team("team-b"), &lease("webdev", 200), at(0)).unwrap();
    match (a, b) {
        (Acquired::Held(a), Acquired::Held(b)) => {
            assert_eq!(a.team_id.as_deref(), Some("team-a"));
            assert_eq!(b.team_id.as_deref(), Some("team-b"));
        }
        _ => panic!("taken"),
    }
}

#[test]
fn worker_lease_identity_is_unique_per_team() {
    let row = |t: Option<String>, who: &str, pid: i64| LeaseRow {
        team_id: t,
        instance_id: who.to_string(),
        pid,
        host: "h".to_string(),
        acquired_at: Mark::At(at(0)),
        last_heartbeat: Mark::At(at(0)),
    };
    let l = Leases::from_rows(vec![
        row(team("team-a"), "webdev", 1234),
        row(team("team-a"), "webdev", 5678),
        row(team("team-b"), "webdev", 9999),
        row(None, "solo", 1),
        row(None, "solo", 2),
    ]);
    assert_eq!(l.rows.len(), 3);
}

#[test]
fn lease_requests_are_checked() {
    let mut l = Leases::new();
    assert!(matches!(l.acquire_lease(&None, &lease("bad name!", 1), at(0)), Err(Refusal::BadRequest)));
    assert!(matches!(l.release_lease(&None, "bad name!", &lease("bad name!", 1)), Err(Refusal::BadRequest)));
}

#[test]
fn stored_leases_are_read_back() {
    let row = lease_from_stored(&stored_lease("2026-04-17T12:00:05+00:00"));
    assert!(matches!(row.acquired_at, Mark::At(t) if t == at(0)));
    assert!(matches!(row.last_heartbeat, Mark::At(t) if t == at(5)));
    for text in ["2026-04-17T12:00:05+00:00", "2026-04-17T12:00:05Z", "2026-04-17T08:00:05-04:00", "soon", ""] {
        assert_eq!(lease_from_stored(&stored_lease(text)).last_heartbeat.to_stored(), text);
    }
}

fn stored_lease(heartbeat: &str) -> StoredLease {
    StoredLease {
        team_id: None,
        instance_id: "webdev".to_string(),
        pid: 3,
        host: "h".to_string(),
        acquired_at: "2026-04-17T12:00:00+00:00".to_string(),
        last_heartbeat: heartbeat.to_string(),
    }
}

#[test]
fn heartbeats_that_are_no_times_go_by_their_text() {
    let ask = |heartbeat: &str| {
        let mut l = Leases::from_rows(vec![lease_from_stored(&stored_lease(heartbeat))]);
        l.acquire_lease(&None, &lease("webdev", 200), at(10)).unwrap()
    };
    for old in ["", "0 no time", "2026-04-17T11:00:00+00:00", "2026-04-17T08:00:05-04:00"] {
        assert!(matches!(ask(old), Acquired::Held(s) if s.taken_over && s.pid == 200), "{}", old);
    }
    for fresh in ["soon", "2026-04-17T12:00:05+00:00", "2026-04-17T12:00:05Z"] {
        assert!(matches!(ask(fresh), Acquired::Taken(c) if c.pid == 3), "{}", fresh);
    }
    match ask("soon") {
        Acquired::Taken(c) => {
            assert_eq!(c.last_heartbeat, at(10));
            assert_eq!(c.seconds_since_heartbeat, 0);
        }
        Acquired::Held(_) => panic!("held"),
    }
}

// ── Authentication ──────────────────────────────────────────────────────────
fn with_team(name: &str, token: &str) -> Teams {
    let mut t = Teams::new();
    let request = CreateTeamRequest { name: name.to_string() };
    t.register(&AuthContext::legacy(), &request, at(0), name, token).ok().unwrap();
    t
}

#[test]
fn team_token_resolves_to_team_context() {
    let t = with_team("team-a", "tok-a");
    let auth = t.authenticate(&None, &team("tok-a")).ok().unwrap();
    assert_eq!(auth.team_id.as_deref(), Some("team-a"));
}

#[test]
fn unknown_token_on_legacy_server_falls_through() {
    let auth = Teams::new().authenticate(&None, &team("garbage")).ok().unwrap();
    assert_eq!(auth.team_id, None);
}

#[test]
fn legacy_env_token_required_when_configured_and_no_team_match() {
    let t = Teams::new();
    let expected = team("envtoken");
    assert!(matches!(t.authenticate(&expected, &None), Err(Refusal::Unauthorized)));
    assert!(matches!(t.authenticate(&expected, &team("wrong")), Err(Refusal::Unauthorized)));
    assert!(t.authenticate(&expected, &team("envtoken")).is_ok());
    assert!(authenticate(team("team-a"), &expected, &None).is_ok());
}

// ── Messages ────────────────────────────────────────────────────────────────
fn post(m: &mut Messages, t: &Option<String>, from: &str, to: &str, content: &str, offset: i64) {
    let payload = MessageCreate {
        sender: from.to_string(),
        recipient: to.to_string(),
        content: content.to_string(),
        refs: vec![],
    };
    m.create_message(t, &payload, at(offset)).ok().unwrap();
}

#[test]
fn messages_are_isolated_between_teams() {
    let mut m = Messages::new();
    post(&mut m, &team("team-a"), "pm", "webdev", "team-a secret", 0);
    post(&mut m, &team("team-b"), "pm", "webdev", "team-b hello", 0);
    let a = m.list_messages(&team("team-a"), "webdev", false, at(1)).ok().unwrap();
    assert_eq!(a.len(), 1);
    assert_eq!(a[0].content, "team-a secret");
    let b = m.list_messages(&team("team-b"), "webdev", false, at(1)).ok().unwrap();
    assert_eq!(b.len(), 1);
    assert_eq!(b[0].content, "team-b hello");
}

#[test]
fn legacy_client_does_not_see_team_messages() {
    let mut m = Messages::new();
    post(&mut m, &team("team-a"), "pm", "webdev", "team-a", 0);
    assert_eq!(m.list_messages(&None, "webdev", false, at(1)).ok().unwrap().len(), 0);
}

#[test]
fn test_insert_and_query_message() {
    let stored = StoredMessage {
        id: "test-id".to_string(),
        hash: "test-hash".to_string(),
        sender: "worker1".to_string(),
        recipient: "worker2".to_string(),
        content: "test content".to_string(),
        refs: "".to_string(),
        timestamp: "2024-03-27T14:30:45Z".to_string(),
        read_at: None,
        team_id: None,
    };
    let rows = parse_message_rows(&vec![stored]);
    assert_eq!(rows[0].sender, "worker1");
    let back = store_message(&rows[0]);
    assert_eq!(back.timestamp, "2024-03-27T14:30:45+00:00");
    assert_eq!(back.content, "test content");
}

#[test]
fn messages_are_hashed_over_what_they_say() {
    let mut m = Messages::new();
    let payload = MessageCreate {
        sender: "pm".to_string(),
        recipient: "webdev".to_string(),
        content: "go".to_string(),
        refs: vec!["abc".to_string()],
    };
    let sent = m.post(&None, &payload, at(0), "the-id").ok().unwrap();
    assert_eq!(sent.id, "the-id");
    assert_eq!(sent.hash, hash_fields("pm", "webdev", "go", "2026-04-17T12:00:00+00:00"));
    assert_eq!(sent.refs, vec!["abc"]);
}

#[test]
fn messages_that_break_a_limit_are_refused() {
    let mut m = Messages::new();
    let mut payload = MessageCreate {
        sender: "pm".to_string(),
        recipient: "webdev".to_string(),
        content: "x".repeat(MAX_CONTENT_LEN + 1),
        refs: vec![],
    };
    assert!(matches!(m.create_message(&None, &payload, at(0)), Err(Refusal::BadRequest)));
    payload.content = "x".to_string();
    payload.refs = vec!["r".to_string(); MAX_REFS_COUNT + 1];
    assert!(matches!(m.create_message(&None, &payload, at(0)), Err(Refusal::BadRequest)));
    payload.refs = vec![];
    payload.sender = "no good".to_string();
    assert!(matches!(m.create_message(&None, &payload, at(0)), Err(Refusal::BadRequest)));
    assert_eq!(m.rows.len(), 0);
}

#[test]
fn reading_marks_messages_where_an_audit_is_kept() {
    let mut m = Messages::new();
    post(&mut m, &None, "pm", "webdev", "one", 0);
    post(&mut m, &None, "pm", "all", "two", 1);
    let seen = m.list_messages(&None, "webdev", false, at(2)).ok().unwrap();
    assert_eq!(seen.len(), 2);
    assert!(m.rows.iter().all(|r| r.read_at.is_none()));
    let _ = m.list_messages(&None, "webdev", true, at(2));
    assert!(m.rows.iter().any(|r| r.read_at == Some(at(2))));
    let history = m.get_history(&None, "webdev", &None, false, at(3)).ok().unwrap();
    assert_eq!(history.len(), 1, "a broadcast is in the history of who sent it");
}

#[test]
fn broadcasts_reach_their_own_team() {
    let mut m = Messages::new();
    let sent = m.insert("pm", "webdev", "go", &vec![], at(0), "i", &team("team-a"));
    let b = BroadcastMsg { team_id: team("team-a"), message: sent };
    assert!(delivers(&b, &team("team-a"), &team("webdev")));
    assert!(!delivers(&b, &team("team-b"), &team("webdev")));
    assert!(!delivers(&b, &team("team-a"), &team("qa")));
}

#[test]
fn cleaning_up_takes_old_messages_only() {
    let mut m = Messages::new();
    let mut p = Presence::new();
    post(&mut m, &None, "pm", "webdev", "old", 0);
    post(&mut m, &None, "pm", "webdev", "new", RECENT_SECS);
    let n = cleanup_old_messages(&mut m, &mut p, false, &None, at(RECENT_SECS + 10)).ok().unwrap();
    assert_eq!(n, 1);
    assert_eq!(m.rows[0].content, "new");
    assert!(matches!(
        cleanup_old_messages(&mut m, &mut p, true, &None, at(0)),
        Err(Refusal::Forbidden)
    ));
}

// ── Presence ────────────────────────────────────────────────────────────────
fn beat(p: &mut Presence, t: &Option<String>, who: &str, role: Option<&str>, offset: i64) {
    let update = PresenceUpdate { role: role.map(str::to_string) };
    p.update_presence(t, who, update, at(offset)).ok().unwrap();
}

#[test]
fn presence_is_kept_once_per_team() {
    let mut p = Presence::new();
    beat(&mut p, &None, "webdev", Some("dev"), 0);
    beat(&mut p, &None, "webdev", None, 5);
    beat(&mut p, &team("team-a"), "webdev", Some("other"), 5);
    assert_eq!(p.rows.len(), 2);
    let roster = get_roster(&p, &Messages::new(), &None, at(6));
    assert_eq!(roster.len(), 1);
    assert_eq!(roster[0].last_seen, at(5));
    p.delete_presence(&None, "webdev").ok().unwrap();
    assert_eq!(p.rows.len(), 1);
    assert!(matches!(
        p.update_presence(&None, "bad name!", PresenceUpdate { role: None }, at(0)),
        Err(Refusal::BadRequest)
    ));
}

#[test]
fn rosters_count_messages() {
    let mut p = Presence::new();
    let mut m = Messages::new();
    beat(&mut p, &None, "pm", Some("plans"), 0);
    post(&mut m, &None, "pm", "webdev", "one", 1);
    post(&mut m, &None, "pm", "webdev", "two", 2);
    let roster = get_roster(&p, &m, &None, at(3));
    assert_eq!(roster[0].instance_id, "pm");
    assert_eq!(roster[0].message_count, 2);
}

#[test]
fn metrics_count_what_is_there() {
    let mut p = Presence::new();
    let mut m = Messages::new();
    beat(&mut p, &None, "pm", None, 0);
    post(&mut m, &None, "pm", "webdev", "one", 0);
    let k = get_metrics(&m, &p, &None, at(1));
    assert_eq!((k.messages_total, k.messages_last_hour, k.active_workers), (1, 1, 1));
    let other = get_metrics(&m, &p, &team("team-a"), at(1));
    assert_eq!((other.messages_total, other.active_workers), (0, 0));
}

// ── Teams ───────────────────────────────────────────────────────────────────
fn named(name: &str) -> CreateTeamRequest {
    CreateTeamRequest { name: name.to_string() }
}

#[test]
fn admin_create_team_mints_token_and_persists() {
    let mut t = Teams::new();
    let admin = t.authenticate(&team("admin-secret"), &team("admin-secret")).ok().unwrap();
    let created = t.create_team(&admin, &named("blender"), at(0)).ok().unwrap();
    assert_eq!(created.name, "blender");
    assert!(created.token.starts_with("tm_"));
    let auth = t.authenticate(&team("admin-secret"), &Some(created.token.clone())).ok().unwrap();
    assert_eq!(auth.team_id.as_deref(), Some(created.team_id.as_str()));
}

#[test]
fn admin_endpoints_reject_team_tokens() {
    let mut t = with_team("team-a", "tok-a");
    let auth = t.authenticate(&None, &team("tok-a")).ok().unwrap();
    assert!(matches!(t.create_team(&auth, &named("other"), at(0)), Err(Refusal::Forbidden)));
    assert!(matches!(t.list_teams(&auth), Err(Refusal::Forbidden)));
}

#[test]
fn admin_endpoints_reject_wrong_legacy_token() {
    let t = Teams::new();
    assert!(matches!(t.authenticate(&team("admin-secret"), &team("wrong")), Err(Refusal::Unauthorized)));
}

#[test]
fn admin_create_team_rejects_duplicate_names() {
    let mut t = Teams::new();
    assert!(t.create_team(&AuthContext::legacy(), &named("dup"), at(0)).is_ok());
    assert!(matches!(t.create_team(&AuthContext::legacy(), &named("dup"), at(0)), Err(Refusal::Conflict)));
    assert!(matches!(t.create_team(&AuthContext::legacy(), &named("bad name"), at(0)), Err(Refusal::BadRequest)));
}

#[test]
fn minted_tokens_count_until_they_are_revoked() {
    let mut t = with_team("team-a", "tok-a");
    let admin = AuthContext::legacy();
    let minted = t.mint_team_token(&admin, "team-a", at(1)).ok().unwrap();
    assert_eq!(t.lookup_team_by_token(&minted.token).as_deref(), Some("team-a"));
    assert_eq!(t.list_teams(&admin).ok().unwrap()[0].active_token_count, 2);
    let prefix = &hash_token(&minted.token)[..TOKEN_PREFIX_LEN];
    assert_eq!(minted.token_prefix, minted.token[..TOKEN_PREFIX_LEN]);
    t.revoke_team_token(&admin, "team-a", prefix, at(2)).ok().unwrap();
    assert!(t.lookup_team_by_token(&minted.token).is_none());
    assert_eq!(t.lookup_team_by_token("tok-a").as_deref(), Some("team-a"));
    assert!(matches!(t.mint_team_token(&admin, "nobody", at(3)), Err(Refusal::NotFound)));
    assert!(matches!(t.revoke_team_token(&admin, "team-a", "zz", at(3)), Err(_)));
}

// ── Tasks ───────────────────────────────────────────────────────────────────
fn assign(t: &mut Todos, m: &mut Messages, space: &Option<String>, to: &str, what: &str) -> String {
    let payload = TodoCreate {
        assigned_by: "pm".to_string(),
        instance: to.to_string(),
        description: what.to_string(),
    };
    t.create_todo(m, space, &payload, at(0), at(0)).ok().unwrap().0.hash
}

#[test]
fn tasks_close_once_and_stay_in_their_team() {
    let mut t = Todos::new();
    let mut m = Messages::new();
    let hash = assign(&mut t, &mut m, &team("team-a"), "webdev", "build it");
    assert_eq!(m.rows.len(), 1, "the assignee is told");
    assert_eq!(t.list_todos(&team("team-a"), "webdev").ok().unwrap().len(), 1);
    assert_eq!(t.list_todos(&team("team-b"), "webdev").ok().unwrap().len(), 0);
    assert!(matches!(t.complete_todo(&team("team-b"), &hash[..7], at(1)), Err(Refusal::NotFound)));
    assert!(t.complete_todo(&team("team-a"), &hash[..7], at(1)).is_ok());
    assert!(matches!(t.complete_todo(&team("team-a"), &hash[..7], at(2)), Err(Refusal::Conflict)));
    assert_eq!(t.rows[0].todo.completed_at, Some(at(1)));
    assert_eq!(t.list_todos(&team("team-a"), "webdev").ok().unwrap().len(), 0);
}

#[test]
fn tasks_are_checked() {
    let mut t = Todos::new();
    let mut m = Messages::new();
    let payload = TodoCreate {
        assigned_by: "pm".to_string(),
        instance: "bad name!".to_string(),
        description: "x".to_string(),
    };
    assert!(matches!(t.create_todo(&mut m, &None, &payload, at(0), at(0)), Err(Refusal::BadRequest)));
    assert!(matches!(t.complete_todo(&None, "xyz!", at(0)), Err(Refusal::BadRequest)));
    assert!(all_hex("09af") && !all_hex("g"));
    assert!(m.rows.is_empty());
}

#[test]
fn stored_tasks_are_read_back() {
    let s = StoredTodo {
        id: "i".to_string(),
        hash: "abc".to_string(),
        instance: "webdev".to_string(),
        assigned_by: "pm".to_string(),
        description: "d".to_string(),
        created_at: "2026-04-17T12:00:00+00:00".to_string(),
        completed_at: Some("2026-04-17T12:00:09+00:00".to_string()),
        team_id: team("team-a"),
    };
    let rows = parse_todo_rows(&vec![s]);
    assert_eq!(rows[0].todo.completed_at, Some(at(9)));
    assert_eq!(rows[0].team_id.as_deref(), Some("team-a"));
}

// ── Usage ───────────────────────────────────────────────────────────────────
fn report(worker: &str, input: u64, output: u64, tier: &str, cli: Option<&str>) -> UsageReport {
    UsageReport {
        worker: worker.to_string(),
        duration_secs: 1,
        input_tokens: input,
        cache_creation_tokens: 0,
        cache_read_tokens: 0,
        output_tokens: output,
        tier: tier.to_string(),
        cli: cli.map(str::to_string),
    }
}

fn tell(u: &mut Usage, t: &Option<String>, r: UsageReport) -> Result<(), Refusal> {
    assert!(u.has_room(t, &r));
    u.report_usage(t, r, at(0))
}

#[test]
fn usage_report_sums_per_worker_totals() {
    let a = team("team-a");
    let mut u = Usage::new();
    tell(&mut u, &a, report("builder", 100, 50, "full", Some("cursor"))).unwrap();
    tell(&mut u, &a, report("builder", 200, 80, "light", Some("cursor"))).unwrap();
    tell(&mut u, &a, report("tester", 40, 20, "full", Some("ollama"))).unwrap();
    assert!(u.can_total(&a));
    let usage = u.get_usage(&a);
    assert_eq!(usage.workers.len(), 2);
    assert_eq!(usage.total_input_tokens, 340);
    assert_eq!(usage.total_output_tokens, 150);
    assert_eq!(usage.total_calls, 3);
    assert_eq!(usage.total_full_calls, 2);
    assert_eq!(usage.total_light_calls, 1);
    assert_eq!(usage.workers[0].worker, "builder");
    assert_eq!(usage.workers[0].calls, 2);
    assert_eq!(usage.workers[0].full_calls, 1);
    assert_eq!(usage.workers[0].light_calls, 1);
}

#[test]
fn usage_is_isolated_between_teams() {
    let mut u = Usage::new();
    tell(&mut u, &team("team-b"), report("builder", 999, 999, "full", None)).unwrap();
    let usage = u.get_usage(&team("team-a"));
    assert_eq!(usage.workers.len(), 0);
    assert_eq!(usage.total_input_tokens, 0);
}

#[test]
fn usage_rejects_invalid_worker_name() {
    let mut u = Usage::new();
    let r = tell(&mut u, &team("team-a"), report("bad name!", 1, 1, "full", None));
    assert!(matches!(r, Err(Refusal::BadRequest)));
}

#[test]
fn usage_rejects_unknown_tier() {
    let mut u = Usage::new();
    let r = tell(&mut u, &team("team-a"), report("builder", 1, 1, "heavy", None));
    assert!(matches!(r, Err(Refusal::BadRequest)));
}

#[test]
fn counts_that_do_not_fit_are_noticed() {
    let mut u = Usage::new();
    tell(&mut u, &None, report("builder", MAX_COUNT, 0, "full", None)).unwrap();
    assert!(!u.has_room(&None, &report("builder", 1, 0, "full", None)));
}
