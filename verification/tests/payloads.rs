use catenary_router::contributor::ephemeral_contributor;
use catenary_router::json::{flag_field, read_request, response_line, str_field, text_array};
use catenary_router::ledger::PromotedPrefixes;
use catenary_router::path::UnixPath;
use catenary_router::payload::{
    extract_session_roots, hook_cwd, is_main_agent_stop, is_read_class, permission_input_key,
    permission_read_target, record_read_action, running_background_agent_ids,
};
use catenary_router::permission::{
    build_read_scope, declared_roots, record_loud_read, resolve_permission_decision, Decision,
};
use catenary_router::tracker::RootTracker;

fn p(text: &str) -> UnixPath {
    UnixPath::new(text)
}

fn json(text: &str) -> serde_json::Value {
    serde_json::from_str(text).expect("json")
}

/// A permission request's payload for a tool.
fn read_payload(tool: &str, path_key: &str, path: &str, cwd: &str) -> serde_json::Value {
    json(&format!(
        r#"{{"tool_name":"{tool}","tool_input":{{"{path_key}":"{path}"}},"cwd":"{cwd}"}}"#
    ))
}

#[test]
fn permission_read_target_only_reads_class_and_resolves_relative() {
    // Read: file_path; Grep/Glob: path; write-class: None.
    let read = read_payload("Read", "file_path", "/abs/main.rs", "/work");
    let (tool, target) = permission_read_target(&read).expect("read is read-class");
    assert_eq!(tool, "Read");
    assert_eq!(target, p("/abs/main.rs"));

    // A relative path resolves against cwd.
    let rel = read_payload("Read", "file_path", "src/main.rs", "/work");
    let (_, target) = permission_read_target(&rel).expect("relative resolves");
    assert_eq!(target, p("/work/src/main.rs"));

    let grep = read_payload("Grep", "path", "/abs", "/work");
    assert_eq!(permission_read_target(&grep).expect("grep").0, "Grep");

    // Write-class: the desk answers nothing.
    let write = read_payload("Write", "file_path", "/abs/x.rs", "/work");
    assert!(permission_read_target(&write).is_none());
    let edit = read_payload("Edit", "file_path", "/abs/x.rs", "/work");
    assert!(permission_read_target(&edit).is_none());
}

#[test]
fn answer_desk_write_class_emits_no_decision() {
    let mut promoted = PromotedPrefixes::new();
    let write = read_payload("Write", "file_path", "/work/x.rs", "/work");
    let desk = Decision::QuietAllow { realpath: p("/work/x.rs") };
    assert!(resolve_permission_decision(&write, desk, &mut promoted, "sess").is_none());
}

#[test]
fn answer_desk_scope_excludes_ephemeral_only_roots() {
    let mut tracker = RootTracker::new();
    let root = p("/base/repo");
    tracker.add_roots(&ephemeral_contributor(&root), std::slice::from_ref(&root));
    assert!(
        declared_roots(&tracker).is_empty(),
        "an ephemeral-only root confers no quiet scope",
    );
    tracker.add_roots("mcp:1", std::slice::from_ref(&root));
    assert_eq!(
        declared_roots(&tracker),
        vec![root],
        "a session-contributed root is declared scope",
    );
}

#[test]
fn declared_scope_is_spelled_as_listed() {
    let mut tracker = RootTracker::new();
    tracker.set_roots("mcp:2", vec![p("/base/repo")]);
    tracker.set_roots("mcp:1", vec![p("/base/repo/")]);
    let scope = build_read_scope(Some(&tracker), None, p("/agents"), Vec::new());
    let prefixes: Vec<&str> = scope.prefixes.iter().map(|r| r.as_str()).collect();
    assert_eq!(prefixes, vec!["/base/repo/", "/agents"]);
}

#[test]
fn answer_desk_always_read_promotes_only_on_first_allow() {
    let mut promoted = PromotedPrefixes::new();
    let read = read_payload("Read", "file_path", "/docs/a.md", "/");
    let desk = || Decision::AlwaysReadAllow {
        realpath: p("/docs/a.md"),
        prefix: p("/docs"),
        promote: false,
    };
    let (decision, tool) =
        resolve_permission_decision(&read, desk(), &mut promoted, "sess").expect("decided");
    assert_eq!(tool, "Read");
    match decision {
        Decision::AlwaysReadAllow { promote, .. } => {
            assert!(promote, "first allow under always_read promotes");
        }
        _ => panic!("expected AlwaysReadAllow"),
    }
    let (decision, _) =
        resolve_permission_decision(&read, desk(), &mut promoted, "sess").expect("decided");
    match decision {
        Decision::AlwaysReadAllow { promote, .. } => {
            assert!(!promote, "subsequent allow does not re-promote");
        }
        _ => panic!("expected AlwaysReadAllow"),
    }
}

#[test]
fn only_loud_reads_are_recorded_loudly() {
    let loud = Decision::LoudAllow { realpath: p("/outside.txt") };
    assert_eq!(record_loud_read(&loud), Some(&p("/outside.txt")));
    let quiet = Decision::QuietAllow { realpath: p("/in.txt") };
    assert_eq!(record_loud_read(&quiet), None);
    let deny = Decision::Deny { lesson: "no".to_string() };
    assert_eq!(record_loud_read(&deny), None);
}

#[test]
fn the_scope_ends_with_the_agents_directory() {
    let mut tracker = RootTracker::new();
    tracker.set_roots("mcp:1", vec![p("/b"), p("/a")]);
    let scope = build_read_scope(Some(&tracker), None, p("/state/agents"), vec![p("/docs")]);
    assert_eq!(scope.prefixes, vec![p("/a"), p("/b"), p("/state/agents")]);
    assert_eq!(scope.always_read, vec![p("/docs")]);
    let bare = build_read_scope(None, None, p("/state/agents"), Vec::new());
    assert_eq!(bare.prefixes, vec![p("/state/agents")]);
    let expanded =
        build_read_scope(Some(&tracker), Some(vec![p("/a"), p("/c")]), p("/x"), Vec::new());
    assert_eq!(expanded.prefixes, vec![p("/a"), p("/c"), p("/x")]);
}

/// A tool call whose payload carries content besides the action.
fn pre_tool_read_request(
    tool: &str,
    path_key: &str,
    path: &str,
    cwd: &str,
    agent_id: &str,
) -> serde_json::Value {
    json(&format!(
        r#"{{"method":"pre-tool/editing-state","tool_name":"{tool}","agent_id":"{agent_id}",
            "session_id":"sess-1","cwd":"{cwd}",
            "host_payload":{{"tool_name":"{tool}","cwd":"{cwd}",
                "tool_input":{{"{path_key}":"{path}",
                    "CONTENT_MARKER":"secret-file-content-should-never-be-recorded"}}}}}}"#
    ))
}

#[test]
fn read_action_records_one_event_with_expected_fields() {
    let req = pre_tool_read_request("Read", "file_path", "/abs/main.rs", "/work", "agent-7");
    let action = record_read_action(&req, "sess-1").expect("exactly one read-action record");
    assert_eq!(action.tool, "Read");
    assert_eq!(action.path, p("/abs/main.rs"), "target path recorded");
    assert_eq!(action.agent_id, "agent-7", "agent id recorded");
    assert_eq!(action.cwd, "/work", "cwd recorded");
    assert_eq!(action.session_id, "sess-1");
}

#[test]
fn read_action_records_grep_and_glob() {
    // Grep/Glob name their target under `path`, not `file_path`.
    let grep = pre_tool_read_request("Grep", "path", "/repo/src", "/repo", "");
    let glob = pre_tool_read_request("Glob", "path", "/repo", "/repo", "");
    let rows = vec![
        record_read_action(&grep, "sess-1").expect("grep"),
        record_read_action(&glob, "sess-1").expect("glob"),
    ];
    assert!(rows.iter().any(|r| r.tool == "Grep"));
    assert!(rows.iter().any(|r| r.tool == "Glob"));
}

#[test]
fn read_action_ignores_write_class_tools() {
    let write = pre_tool_read_request("Write", "file_path", "/abs/x.rs", "/work", "");
    assert!(record_read_action(&write, "sess-1").is_none());
    let edit = pre_tool_read_request("Edit", "file_path", "/abs/x.rs", "/work", "");
    assert!(
        record_read_action(&edit, "sess-1").is_none(),
        "write-class tools produce no read-action record",
    );
}

#[test]
fn read_action_never_records_file_content() {
    let req = pre_tool_read_request("Read", "file_path", "/abs/main.rs", "/work", "a");
    let action = record_read_action(&req, "sess-1").expect("one record");
    let marker = "secret-file-content-should-never-be-recorded";
    for field in [
        action.session_id.as_str(),
        action.agent_id.as_str(),
        action.tool.as_str(),
        action.path.as_str(),
        action.cwd.as_str(),
    ] {
        assert!(
            !field.contains(marker),
            "no file content ever appears in the read-action record",
        );
    }
}

#[test]
fn running_background_agent_ids_reads_running_tasks_from_host_payload() {
    let raw = json(
        r#"{"host_payload":{"hook_event_name":"Stop","background_tasks":[
            {"id":"sub-1","status":"running"},{"id":"sub-2","status":"completed"}]}}"#,
    );
    let running = running_background_agent_ids(&raw);
    assert_eq!(running, vec!["sub-1".to_string()], "only running tasks");
}

#[test]
fn running_background_agent_ids_empty_without_tasks() {
    let raw = json(r#"{"host_payload":{"hook_event_name":"Stop"}}"#);
    assert!(running_background_agent_ids(&raw).is_empty());
}

#[test]
fn is_main_agent_stop_requires_top_level_stop_and_no_agent_id() {
    let main_stop = json(r#"{"agent_id":"","host_payload":{"hook_event_name":"Stop"}}"#);
    assert!(
        is_main_agent_stop(&main_stop),
        "top-level Stop, no agent id"
    );

    let subagent_identity =
        json(r#"{"agent_id":"abc123","host_payload":{"hook_event_name":"Stop"}}"#);
    assert!(
        !is_main_agent_stop(&subagent_identity),
        "an identity WITH an agentId gets no nag",
    );

    let subagent_stop =
        json(r#"{"agent_id":"","host_payload":{"hook_event_name":"SubagentStop"}}"#);
    assert!(!is_main_agent_stop(&subagent_stop), "SubagentStop excluded");

    let absent_agent_id = json(r#"{"host_payload":{"hook_event_name":"Stop"}}"#);
    assert!(
        is_main_agent_stop(&absent_agent_id),
        "an absent agent_id field is the main identity too",
    );
}

#[test]
fn the_working_directory_comes_from_the_request_or_its_host() {
    assert_eq!(hook_cwd(&json(r#"{"cwd":"/a","host_payload":{"cwd":"/b"}}"#)), Some("/a"));
    assert_eq!(hook_cwd(&json(r#"{"host_payload":{"cwd":"/b"}}"#)), Some("/b"));
    assert_eq!(hook_cwd(&json(r#"{"cwd":"","host_payload":{"cwd":"/b"}}"#)), Some("/b"));
    assert_eq!(hook_cwd(&json(r#"{"cwd":"","host_payload":{"cwd":""}}"#)), None);
    assert_eq!(hook_cwd(&json(r#"{"cwd":"/a","host_payload":{"cwd":""}}"#)), Some("/a"));
    assert_eq!(hook_cwd(&json(r#"{"cwd":7}"#)), None);
}

#[test]
fn session_roots_come_from_the_workspace_or_the_cwd() {
    assert_eq!(
        extract_session_roots(&json(
            r#"{"host_payload":{"workspacePaths":["/a",3,"/b"],"cwd":"/c"}}"#
        )),
        vec!["/a", "/b"]
    );
    assert_eq!(extract_session_roots(&json(r#"{"host_payload":{"cwd":"/c"}}"#)), vec!["/c"]);
    assert!(extract_session_roots(&json(r#"{"cwd":"/c"}"#)).is_empty());
}

#[test]
fn read_tools_and_their_keys() {
    assert!(is_read_class("Read") && is_read_class("Grep") && is_read_class("Glob"));
    assert!(!is_read_class("Write") && !is_read_class("read"));
    assert_eq!(permission_input_key("Grep"), "path");
    assert_eq!(permission_input_key("Glob"), "path");
    assert_eq!(permission_input_key("Read"), "file_path");
}

#[test]
fn a_request_line_is_parsed_or_refused() {
    let v = read_request("  {\"a\": {\"b\": \"c\"}, \"d\": true} \r\n").expect("json");
    assert_eq!(str_field(&v["a"], "b"), Some("c"));
    assert_eq!(str_field(&v, "d"), None);
    assert!(flag_field(&v, "d"));
    assert!(!flag_field(&v, "a"));
    assert_eq!(response_line(&v), "{\"a\":{\"b\":\"c\"},\"d\":true}\n");
    let refused = read_request("not json").err().expect("refused");
    assert!(refused.message.starts_with("Invalid hook request: expected ident"));
}

#[test]
fn texts_become_an_array() {
    let v = text_array(&["a".to_string(), "b\"c".to_string()]);
    assert_eq!(v.to_string(), r#"["a","b\"c"]"#);
}
