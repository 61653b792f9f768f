use confcli::auth::AuthMethod;
use confcli::cli::{parse_positive_limit, parse_space_key};
use confcli::commands::{
    comment_parent_id, escape_cql_text, export_folder_name, human_size, label_cql, next_version,
    page_body_value, parse_body_render_format, parse_export_format, to_cql_query,
    BodyRenderFormat, ExportFormat,
};
use confcli::download::{
    download_step, resolve_download_path, sanitize_filename, tmp_file_name, unique_path,
    DownloadAction, DownloadEvent,
};
use confcli::endpoints::Endpoints;
use confcli::errors::ApiError;
use confcli::httpmsg::friendly_error;
use confcli::jsonv::{json_str, JsonValue};
use confcli::pagination::{extract_items, resolve_next_page_url, PageWalk};
use confcli::pattern::{glob_match_ci, glob_to_regex_ci};
use confcli::resolve::{
    extract_page_id_from_url, parse_page_reference, resolve_page_from_items,
    resolve_space_id_from_items, resolve_space_id_start, space_key_from_response, PageRef,
    SpaceLookup, StringCache,
};
use confcli::strutil::u64_string;
use confcli::transfer::{index_tasks, merge_outcomes, sort_by_index};
use confcli::transport::{transport_step, TransportEvent, TransportStep};
use confcli::tree::{
    build_children, build_parent_idx, copy_title, creation_order, match_blocked,
    propagate_blocked, DiscoverWalk, TreeNode,
};

fn obj(pairs: Vec<(&str, JsonValue)>) -> JsonValue {
    JsonValue::Obj(pairs.into_iter().map(|(k, v)| (k.to_string(), v)).collect())
}

fn s(text: &str) -> JsonValue {
    JsonValue::Str(text.to_string())
}

fn response(status: u16, hs: &[(&str, &str)]) -> TransportEvent {
    TransportEvent::Response {
        status,
        headers: hs.iter().map(|(k, v)| (k.to_string(), v.to_string())).collect(),
        body_text: String::new(),
        body_json: None,
    }
}

fn ep() -> Endpoints {
    Endpoints::new(
        "https://x.example.com/wiki".to_string(),
        "https://x.example.com/wiki/rest/api".to_string(),
        "https://x.example.com/wiki/api/v2".to_string(),
    )
    .unwrap()
}

#[test]
fn pagination_loop_is_detected_before_second_request() {
    let mut walk = PageWalk::new("http://s/loop".to_string(), true);
    let first = walk.begin_page().unwrap();
    assert_eq!(first, Some("http://s/loop".to_string()));
    let body = obj(vec![("results", JsonValue::Arr(vec![s("1")]))]);
    let hs = vec![("link".to_string(), "</loop>; rel=next".to_string())];
    walk.finish_page(body, &hs).unwrap();
    assert_eq!(walk.next_url, Some("http://s/loop".to_string()));
    let second = walk.begin_page();
    match second {
        Err(ApiError::Protocol { message }) => {
            assert_eq!(
                message,
                "Pagination loop detected: already visited next URL: http://s/loop"
            );
        }
        other => panic!("expected a pagination loop error, got {:?}", other),
    }
    assert_eq!(walk.pages, 1);
}

#[test]
fn pagination_aborts_at_page_ceiling() {
    let mut walk = PageWalk::new_with_limit("http://s/pages/1".to_string(), true, 1);
    let first = walk.begin_page().unwrap();
    assert_eq!(first, Some("http://s/pages/1".to_string()));
    let body = obj(vec![("results", JsonValue::Arr(vec![s("1")]))]);
    let hs = vec![("link".to_string(), "</pages/2>; rel=next".to_string())];
    walk.finish_page(body, &hs).unwrap();
    match walk.begin_page() {
        Err(ApiError::Protocol { message }) => {
            assert_eq!(
                message,
                "Pagination aborted after 1 pages (possible looping 'next' link)"
            );
        }
        other => panic!("expected a pagination abort, got {:?}", other),
    }
}

#[test]
fn transport_retries_twice_then_returns_failure() {
    let mut retries = 0;
    for attempt in 1..=3u32 {
        match transport_step(attempt, &response(500, &[("retry-after", "0")])) {
            TransportStep::Retry { .. } => retries += 1,
            TransportStep::Fail { error } => {
                assert_eq!(attempt, 3);
                assert!(error.is_transient());
            }
            TransportStep::Done => panic!("a 500 is not a success"),
        }
    }
    assert_eq!(retries, 2);
}

#[test]
fn transport_returns_success_after_n_failures() {
    let outcomes = [500u16, 429, 200];
    let mut retries = 0;
    let mut done = false;
    for (i, status) in outcomes.iter().enumerate() {
        match transport_step((i + 1) as u32, &response(*status, &[("retry-after", "0")])) {
            TransportStep::Retry { .. } => retries += 1,
            TransportStep::Done => {
                done = true;
                break;
            }
            TransportStep::Fail { .. } => panic!("should not give up here"),
        }
    }
    assert!(done);
    assert_eq!(retries, 2);
}

#[test]
fn does_not_retry_on_400() {
    match transport_step(1, &response(400, &[])) {
        TransportStep::Fail { error } => match error {
            ApiError::Client { status, .. } => assert_eq!(status, 400),
            other => panic!("expected a client error, got {:?}", other),
        },
        other => panic!("a 400 must fail immediately, got {:?}", other),
    }
}

#[test]
fn requested_ids_partition_without_duplicates() {
    let mut cache = StringCache::new();
    cache.put("1".to_string(), "ENG".to_string());
    let ids = vec![
        "1".to_string(),
        "2".to_string(),
        "1".to_string(),
        "3".to_string(),
        "2".to_string(),
    ];
    let (hits, missing) = confcli::resolve::partition_cached(&mut cache, &ids);
    assert_eq!(hits, vec![("1".to_string(), "ENG".to_string())]);
    assert_eq!(missing, vec!["2".to_string(), "3".to_string()]);
    let chunks = confcli::resolve::chunk_ids(&missing);
    assert_eq!(chunks.len(), 1);
    assert_eq!(chunks[0], missing);
}

#[test]
fn conflict_gets_its_own_wording() {
    match transport_step(1, &response(409, &[])) {
        TransportStep::Fail { error } => {
            assert_eq!(error, ApiError::Conflict);
            assert!(error.message().contains("modified concurrently"));
        }
        other => panic!("a 409 must fail immediately, got {:?}", other),
    }
    let msg = friendly_error(404, "", None);
    assert_eq!(msg, "404 Not Found: Not Found");
    let denied = friendly_error(401, "", None);
    assert_eq!(
        denied,
        "401 Unauthorized: Unauthorized (this may be an auth/permission issue; run `confcli auth status`)"
    );
}

#[test]
fn exclusion_propagates_to_descendants() {
    let nodes = vec![
        TreeNode {
            id: "1".to_string(),
            parent_id: None,
            title: "alpha".to_string(),
            child_position: 0,
            body: None,
        },
        TreeNode {
            id: "2".to_string(),
            parent_id: Some("1".to_string()),
            title: "beta".to_string(),
            child_position: 0,
            body: None,
        },
        TreeNode {
            id: "3".to_string(),
            parent_id: Some("2".to_string()),
            title: "gamma".to_string(),
            child_position: 0,
            body: None,
        },
    ];
    let parent_idx = build_parent_idx(&nodes);
    let init = match_blocked(&nodes, 0, "b*").unwrap();
    assert_eq!(init, vec![false, true, false]);
    let blocked = propagate_blocked(&parent_idx, &init);
    assert_eq!(blocked, vec![false, true, true]);
    let children = build_children(&nodes, &parent_idx, &blocked);
    assert!(children[0].is_empty());
}

#[test]
fn bulk_transfer_preserves_submission_order() {
    let done: Vec<(u64, &str)> = vec![(4, "e"), (3, "d"), (2, "c"), (1, "b"), (0, "a")];
    let sorted = sort_by_index(done);
    let indices: Vec<u64> = sorted.iter().map(|p| p.0).collect();
    assert_eq!(indices, vec![0, 1, 2, 3, 4]);
    let values: Vec<&str> = sorted.iter().map(|p| p.1).collect();
    assert_eq!(values, vec!["a", "b", "c", "d", "e"]);

    let tasks = index_tasks(vec!["x", "y", "z"]);
    assert_eq!(tasks[1], (1, "y"));

    let outcomes: Vec<(u64, Result<&str, ApiError>)> =
        vec![(1, Ok("b")), (0, Ok("a")), (2, Ok("c"))];
    let merged = merge_outcomes(outcomes).unwrap();
    assert_eq!(merged, vec![(0, "a"), (1, "b"), (2, "c")]);

    let failing: Vec<(u64, Result<&str, ApiError>)> = vec![
        (1, Ok("b")),
        (0, Err(ApiError::Conflict)),
        (2, Ok("c")),
    ];
    assert_eq!(merge_outcomes(failing).unwrap_err(), ApiError::Conflict);
}

#[test]
fn failed_download_never_commits() {
    assert!(matches!(
        download_step(1, 3, &DownloadEvent::StreamFailed),
        DownloadAction::Abort
    ));
    assert!(matches!(
        download_step(3, 3, &DownloadEvent::ConnFailed),
        DownloadAction::Abort
    ));
    assert!(matches!(
        download_step(
            1,
            3,
            &DownloadEvent::BadStatus { status: 404, headers: Vec::new() }
        ),
        DownloadAction::Abort
    ));
    assert!(matches!(
        download_step(
            1,
            3,
            &DownloadEvent::BadStatus { status: 500, headers: Vec::new() }
        ),
        DownloadAction::RetryAfter { .. }
    ));
    assert!(matches!(
        download_step(1, 3, &DownloadEvent::StreamFinished),
        DownloadAction::Commit
    ));
    assert_eq!(tmp_file_name("out.bin", "77-1-0"), "out.bin.77-1-0.tmp");
}

#[test]
fn resolves_space_title_reference_with_cached_space() {
    let ep = ep();
    let mut cache = StringCache::new();
    match parse_page_reference("ENG:Overview") {
        PageRef::SpaceTitle { space, title } => {
            assert_eq!(space, "ENG");
            assert_eq!(title, "Overview");
            let first = resolve_space_id_start(&ep, &mut cache, &space).unwrap();
            let url = match first {
                SpaceLookup::Query { url } => url,
                SpaceLookup::Done(_) => panic!("nothing is cached yet"),
            };
            assert_eq!(
                url,
                "https://x.example.com/wiki/api/v2/spaces?keys=ENG&limit=1"
            );
            let space_items = vec![obj(vec![("id", s("10"))])];
            let sid = resolve_space_id_from_items(&mut cache, &space_items, &space).unwrap();
            assert_eq!(sid, "10");
            let page_items = vec![obj(vec![("id", s("99"))])];
            let pid = resolve_page_from_items(&page_items, &title, &space).unwrap();
            assert_eq!(pid, "99");
            // The second resolution of the same space makes no lookup.
            match resolve_space_id_start(&ep, &mut cache, &space).unwrap() {
                SpaceLookup::Done(id) => assert_eq!(id, "10"),
                SpaceLookup::Query { .. } => panic!("the space id was cached"),
            }
        }
        other => panic!("expected a space-and-title reference, got {:?}", other),
    }
}

#[test]
fn relative_cursor_resolves_against_current_url() {
    let next = resolve_next_page_url(
        "https://example.com/wiki/api/v2/pages?limit=1",
        "?cursor=abc",
    )
    .unwrap();
    assert_eq!(next, "https://example.com/wiki/api/v2/pages?cursor=abc");
}

#[test]
fn extract_items_handles_both_shapes() {
    let body = obj(vec![("results", JsonValue::Arr(vec![s("a"), s("b")]))]);
    assert_eq!(extract_items(body).unwrap().len(), 2);
    let bare = JsonValue::Arr(vec![s("a")]);
    assert_eq!(extract_items(bare).unwrap().len(), 1);
    let items_shape = obj(vec![("items", JsonValue::Arr(vec![s("a"), s("b"), s("c")]))]);
    assert_eq!(extract_items(items_shape).unwrap().len(), 3);
    match extract_items(obj(vec![("other", s("x"))])) {
        Err(ApiError::Protocol { message }) => {
            assert_eq!(message, "Unexpected response shape: missing results array");
        }
        other => panic!("expected a shape error, got {:?}", other),
    }
}

#[test]
fn page_references_resolve_without_network() {
    assert!(matches!(
        parse_page_reference("12345"),
        PageRef::Id(id) if id == "12345"
    ));
    assert_eq!(
        extract_page_id_from_url("https://x.example.com/wiki/spaces/E/pages/777/My+Page"),
        Some("777".to_string())
    );
    assert_eq!(
        extract_page_id_from_url("https://x.example.com/view?pageId=4242"),
        Some("4242".to_string())
    );
    assert!(matches!(parse_page_reference("no reference"), PageRef::Invalid));
    match resolve_page_from_items(&Vec::new(), "Overview", "ENG") {
        Err(ApiError::NotFound { message }) => {
            assert_eq!(message, "Page 'Overview' not found in space ENG");
        }
        other => panic!("expected not-found, got {:?}", other),
    }
    match resolve_space_id_from_items(&mut StringCache::new(), &Vec::new(), "ENG") {
        Err(ApiError::NotFound { message }) => {
            assert_eq!(message, "Space 'ENG' not found");
        }
        other => panic!("expected not-found, got {:?}", other),
    }
}

#[test]
fn space_key_cache_prefers_display_names() {
    let mut cache = StringCache::new();
    let personal = obj(vec![("key", s("~alice"))]);
    let key = space_key_from_response(&mut cache, "7", &personal);
    assert_eq!(key, "~alice");
    assert_eq!(cache.get("7"), Some("~alice".to_string()));
    assert_eq!(
        confcli::resolve::display_key("~alice", Some(&"Alice".to_string())),
        "Alice"
    );
    assert_eq!(confcli::resolve::display_key("ENG", Some(&"Engineering".to_string())), "ENG");
}

#[test]
fn discovery_walks_breadth_first_and_never_requeues() {
    let mut walk = DiscoverWalk::new("1".to_string(), 50, true, 0);
    let (id, depth, size) = walk.next_fetch().unwrap();
    assert_eq!((id.as_str(), depth, size), ("1", 0, 50));
    let children = vec![
        obj(vec![("id", s("2")), ("title", s("two")), ("childPosition", JsonValue::Int(1))]),
        obj(vec![("id", s("1"))]),
        obj(vec![("id", s("3")), ("title", s("three"))]),
    ];
    walk.record_children(&"1".to_string(), 0, children);
    assert_eq!(walk.pages.len(), 3);
    assert_eq!(walk.pages[0].depth, 1);
    // The root was already seen, so only the new children were enqueued.
    assert_eq!(walk.queue.len(), 2);
    let (id2, d2, _) = walk.next_fetch().unwrap();
    assert_eq!((id2.as_str(), d2), ("2", 1));
}

#[test]
fn creation_order_is_parent_before_child() {
    // children[0] = [1, 2], children[1] = [3], others leaves.
    let children = vec![vec![1usize, 2], vec![3], vec![], vec![]];
    let order = creation_order(&children, 0);
    assert_eq!(order, vec![0, 1, 3, 2]);
    assert_eq!(copy_title("Roadmap", " (copy)", None, false), "Roadmap (copy)");
    assert_eq!(
        copy_title("Roadmap", " (copy)", Some(&"Fresh".to_string()), true),
        "Fresh"
    );
}

#[test]
fn query_helpers_escape_user_input() {
    assert_eq!(escape_cql_text("a\"b\\c\nd"), "a\\\"b\\\\c d");
    assert_eq!(to_cql_query("hello world"), "text ~ \"hello world\"");
    assert_eq!(to_cql_query("title ~ \"x\" AND space = E"), "title ~ \"x\" AND space = E");
    assert_eq!(label_cql("team:infra"), "label = \"team:infra\"");
    assert_eq!(
        label_cql("infra"),
        "label in (\"infra\", \"team:infra\", \"my:infra\")"
    );
}

#[test]
fn small_helpers_do_what_they_say() {
    assert_eq!(u64_string(0), "0");
    assert_eq!(u64_string(10500), "10500");
    assert_eq!(human_size(-3), "-3");
    assert_eq!(human_size(1024), "1 KiB");
    assert_eq!(sanitize_filename("  a/b\\c.txt  "), "abc.txt");
    assert_eq!(
        unique_path("a.txt".to_string(), &vec!["a.txt".to_string()]),
        "a (1).txt"
    );
    assert_eq!(
        unique_path("a.txt".to_string(), &vec![]),
        "a.txt"
    );
    assert_eq!(glob_to_regex_ci("a*b?.c"), "^a.*b.\\.c$");
    assert_eq!(glob_match_ci("Dra*", "DRAFT notes"), Ok(true));
    assert_eq!(glob_match_ci("Dra*", "final"), Ok(false));
    assert_eq!(parse_space_key(" ENG1 "), Ok("ENG1".to_string()));
    assert!(parse_space_key("e").is_err());
    assert_eq!(parse_positive_limit("25"), Ok(25));
    assert!(parse_positive_limit("0").is_err());
}

#[test]
fn json_readers_follow_the_service_shapes() {
    let item = obj(vec![
        ("id", s("9")),
        ("fileSize", JsonValue::Int(2048)),
        ("version", obj(vec![("number", JsonValue::Int(4))])),
        (
            "ancestors",
            JsonValue::Arr(vec![
                obj(vec![("type", s("page")), ("id", s("1"))]),
                obj(vec![("type", s("comment")), ("id", s("33"))]),
            ]),
        ),
    ]);
    assert_eq!(json_str(&item, "id"), "9");
    assert_eq!(json_str(&item, "fileSize"), "2048");
    assert_eq!(json_str(&item, "missing"), "");
    assert_eq!(next_version(&item), Some(5));
    assert_eq!(comment_parent_id(&item), Some("33".to_string()));
    assert_eq!(
        resolve_download_path(None, &obj(vec![("title", s("dir/report.pdf"))])),
        Ok("report.pdf".to_string())
    );
    assert!(resolve_download_path(None, &obj(vec![("title", s("dir/"))])).is_err());
}

#[test]
fn format_names_are_a_closed_set() {
    assert_eq!(parse_body_render_format("MD"), Ok(BodyRenderFormat::Markdown));
    assert_eq!(parse_body_render_format("view"), Ok(BodyRenderFormat::View));
    assert_eq!(parse_body_render_format("adf"), Ok(BodyRenderFormat::Adf));
    assert_eq!(
        parse_body_render_format("html"),
        Err("Invalid body format: html. Use markdown, view, storage, atlas_doc_format, or adf."
            .to_string())
    );
    assert_eq!(parse_export_format("storage"), Ok(ExportFormat::Storage));
    assert_eq!(
        parse_export_format("doc"),
        Err("Invalid --format: doc. Use md, storage, or adf.".to_string())
    );
    assert_eq!(ExportFormat::Markdown.body_format_name(), "view");
    assert_eq!(ExportFormat::Adf.content_file_name(), "page.adf.json");
    assert_eq!(export_folder_name("My Page/Notes", "88"), "My PageNotes--88");
    let page = obj(vec![(
        "body",
        obj(vec![("storage", obj(vec![("value", s("<p>x</p>"))]))]),
    )]);
    assert_eq!(page_body_value(&page, "storage"), Some("<p>x</p>".to_string()));
    assert_eq!(page_body_value(&page, "view"), None);
}

#[test]
fn backfills_api_bases_from_legacy_base_url() {
    let mut cfg = confcli::config::Config {
        site_url: "https://example.atlassian.net/wiki".to_string(),
        api_base_v1: "".to_string(),
        api_base_v2: "".to_string(),
        auth: AuthMethod::Basic { email: "a@b.c".to_string(), token: "x".to_string() },
    };
    cfg.normalize_and_backfill(None).unwrap();
    assert_eq!(cfg.api_base_v1, "https://example.atlassian.net/wiki/rest/api");
    assert_eq!(cfg.api_base_v2, "https://example.atlassian.net/wiki/api/v2");
}

#[test]
fn basic_credentials_become_a_basic_header() {
    let auth = AuthMethod::Basic { email: "user".to_string(), token: "pw".to_string() };
    assert_eq!(auth.authorization_header_value(), "Basic dXNlcjpwdw==");
    assert!(auth.is_basic());
    let bearer = AuthMethod::Bearer { token: "tok".to_string() };
    assert_eq!(bearer.authorization_header_value(), "Bearer tok");
    assert_eq!(bearer.description(), "bearer");
}
