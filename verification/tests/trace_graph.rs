use dial9_viewer::accum::{GraphAccum, StackTally};
use dial9_viewer::graph::{build_module_graph, checked_module_graph, GraphEdge, GraphNode};
use dial9_viewer::symbol::{is_app_crate, is_known_runtime_crate, module_of, node_id_for, RUNTIME_ID};

fn strings(texts: &[&str]) -> Vec<String> {
    texts.iter().map(|t| t.to_string()).collect()
}

/// An accumulator with the given stacks: id, frames (leaf first), total and off-CPU samples.
fn accum_of(stacks: &[(u8, &[&str], u64, u64)]) -> GraphAccum {
    let mut accum = GraphAccum::default();
    for (id, frames, total, off_cpu) in stacks {
        accum.dict.insert(vec![*id; 16], strings(frames));
        accum.stacks.insert(
            vec![*id; 16],
            StackTally {
                total: *total,
                off_cpu: *off_cpu,
            },
        );
        accum.total_samples += total;
    }
    accum
}

fn node<'a>(nodes: &'a [GraphNode], id: &str) -> &'a GraphNode {
    nodes.iter().find(|n| n.id == id).unwrap()
}

fn count(edges: &[GraphEdge], source: &str, target: &str) -> Option<u64> {
    edges
        .iter()
        .find(|e| e.source == source && e.target == target)
        .map(|e| e.count)
}

#[test]
fn module_of_extracts_crate_module() {
    assert_eq!(
        module_of("dial9_core::runtime::worker::run"),
        Some(("dial9_core".to_string(), "runtime".to_string()))
    );
    // Trait-impl generic wrapper: the first real lowercase path run wins,
    // skipping the single-letter generic parameter `T`.
    assert_eq!(
        module_of("<T as alloc::string::ToString>::to_string"),
        Some(("alloc".to_string(), "string".to_string()))
    );
    // Bare / kernel / hex frames have no crate::module path.
    assert_eq!(module_of("do_futex"), None);
    assert_eq!(module_of("0xdeadbeef"), None);
    assert_eq!(module_of(""), None);
    // A path run must begin at a WORD BOUNDARY: a CamelCase word like
    // `MyFactory::build` must NOT latch onto its lowercase tail (`actory`) as
    // a crate. The first real crate::path run wins instead.
    assert_eq!(module_of("MyFactory::build"), None);
    assert_eq!(
        module_of("<MyFactory as amzn_svc::traits::Build>::build"),
        Some(("amzn_svc".to_string(), "traits".to_string()))
    );
}

#[test]
fn module_of_needs_two_characters_per_segment() {
    assert_eq!(module_of("a::bc"), None);
    assert_eq!(module_of("ab::c"), None);
    assert_eq!(
        module_of("ab::cd"),
        Some(("ab".to_string(), "cd".to_string()))
    );
    assert_eq!(
        module_of("_x::y0::zz"),
        Some(("_x".to_string(), "y0".to_string()))
    );
    assert_eq!(module_of("ab:cd"), None);
    assert_eq!(module_of("ab::"), None);
    assert_eq!(module_of("::"), None);
}

#[test]
fn module_of_resumes_after_a_failed_run() {
    assert_eq!(
        module_of("syscall core::ptr::drop"),
        Some(("core".to_string(), "ptr".to_string()))
    );
    // The crate segment ends where the type name begins.
    assert_eq!(
        module_of("svc_a::Thing::svc_b::inner::run"),
        Some(("svc_b".to_string(), "inner".to_string()))
    );
    // A partly uppercase second segment still yields its lowercase start.
    assert_eq!(
        module_of("alpha::betaGamma"),
        Some(("alpha".to_string(), "beta".to_string()))
    );
}

#[test]
fn module_of_takes_text_beyond_ascii() {
    assert_eq!(
        module_of("\u{e9}ab::cd"),
        Some(("ab".to_string(), "cd".to_string()))
    );
    assert_eq!(module_of("\u{4e2d}::\u{6587}"), None);
}

#[test]
fn node_id_collapses_non_app_to_runtime() {
    let app = vec!["metrics_service".to_string()];
    assert_eq!(
        node_id_for("metrics_service::routes::handle", &app),
        (
            "metrics_service::routes".to_string(),
            "metrics_service".to_string(),
            "routes".to_string()
        )
    );
    // tokio is not app → runtime.
    let (id, cr, m) = node_id_for("tokio::runtime::scheduler::poll", &app);
    assert_eq!((id.as_str(), cr.as_str(), m.as_str()), ("runtime", "runtime", "runtime"));
}

#[test]
fn a_prefix_keeps_every_crate_that_starts_with_it() {
    let app = strings(&["svc_", "other"]);
    assert!(is_app_crate("svc_api", &app));
    assert!(is_app_crate("other", &app));
    assert!(!is_app_crate("sv", &app));
    assert!(!is_app_crate("my_svc_api", &app));
    assert!(!is_app_crate("svc_api", &[]));
    assert!(is_app_crate("anything", &strings(&[""])));
    assert_eq!(node_id_for("svc_api::http::get", &app).0, "svc_api::http");
}

#[test]
fn runtime_crates_are_known_by_their_prefixes() {
    for name in ["std", "core", "alloc", "tokio", "tokio_util", "aws_smithy_types", "want"] {
        assert!(is_known_runtime_crate(name));
    }
    for name in ["stdx", "tokio_", "tokio_stream", "h2o", "futures_channel", "hyper_util"] {
        assert!(is_known_runtime_crate(name));
    }
    for name in ["", "st", "tok", "my_tokio", "metrics_service"] {
        assert!(!is_known_runtime_crate(name));
    }
}

#[test]
fn crates_with_a_runtime_prefix_are_not_inferred() {
    let mut accum = GraphAccum::default();
    accum.dict.insert(
        vec![0u8; 16],
        strings(&["tokio_stream::wrappers::poll_next", "metrics_service::routes::handle"]),
    );
    assert_eq!(accum.infer_app_prefixes(), strings(&["metrics_service"]));
}

/// Build a tiny accumulator by hand and check the derived graph: node
/// counts, runtime collapse, off-CPU attribution, and caller→callee edges.
#[test]
fn build_module_graph_from_stacks() {
    let mut accum = GraphAccum::default();
    // Stack (leaf→root): std::futex ← tokio::poll ← metrics_service::routes.
    let sid = [1u8; 16];
    accum.dict.insert(
        sid.to_vec(),
        vec![
            "std::sys::futex".to_string(),
            "tokio::runtime::poll".to_string(),
            "metrics_service::routes::handle".to_string(),
        ],
    );
    // 10 samples through this stack, 4 of them off-CPU.
    accum.stacks.insert(sid.to_vec(), StackTally { total: 10, off_cpu: 4 });
    accum.total_samples = 10;

    let app = vec!["metrics_service".to_string()];
    let (nodes, edges) = build_module_graph(&accum, &app);

    // Two nodes: the app module and the collapsed runtime (std + tokio fold).
    let ids: Vec<&str> = nodes.iter().map(|n| n.id.as_str()).collect();
    assert!(ids.contains(&"metrics_service::routes"));
    assert!(ids.contains(&"runtime"));
    assert_eq!(nodes.len(), 2);

    let app_node = nodes.iter().find(|n| n.id == "metrics_service::routes").unwrap();
    let rt_node = nodes.iter().find(|n| n.id == "runtime").unwrap();
    assert_eq!(app_node.samples, 10);
    assert_eq!(rt_node.samples, 10);
    // Off-CPU tally attaches to every node the stack passes through.
    assert_eq!(rt_node.off_cpu, 4);

    // One caller→callee edge: routes → runtime (root→leaf direction).
    assert_eq!(edges.len(), 1);
    assert_eq!(edges[0].source, "metrics_service::routes");
    assert_eq!(edges[0].target, "runtime");
    assert_eq!(edges[0].count, 10);
}

#[test]
fn a_node_counts_once_per_collapsed_occurrence() {
    // Root to leaf: app, runtime, runtime, app again.
    let accum = accum_of(&[(
        1,
        &["svc::api::leaf", "tokio::task::poll", "std::thread::run", "svc::api::root"],
        5,
        2,
    )]);
    let (nodes, edges) = build_module_graph(&accum, &strings(&["svc"]));
    assert_eq!(nodes.len(), 2);
    // Twice visited, so more samples than there are.
    assert_eq!(node(&nodes, "svc::api").samples, 10);
    assert_eq!(node(&nodes, "svc::api").off_cpu, 4);
    assert_eq!(node(&nodes, RUNTIME_ID).samples, 5);
    assert_eq!(count(&edges, "svc::api", RUNTIME_ID), Some(5));
    assert_eq!(count(&edges, RUNTIME_ID, "svc::api"), Some(5));
    assert_eq!(edges.len(), 2);
}

#[test]
fn weights_add_up_over_stacks() {
    let accum = accum_of(&[
        (1, &["svc::db::query", "svc::api::get"], 3, 3),
        (2, &["svc::db::query", "svc::jobs::run", "svc::api::get"], 4, 0),
        (3, &["svc::db::scan", "svc::api::put"], 2, 1),
    ]);
    let (nodes, edges) = build_module_graph(&accum, &strings(&["svc"]));
    // By samples, most first; among equals by id.
    let listed: Vec<(&str, u64, u64)> =
        nodes.iter().map(|n| (n.id.as_str(), n.samples, n.off_cpu)).collect();
    assert_eq!(
        listed,
        vec![("svc::api", 9, 4), ("svc::db", 9, 4), ("svc::jobs", 4, 0)]
    );
    assert_eq!(node(&nodes, "svc::jobs").crate_name, "svc");
    assert_eq!(node(&nodes, "svc::jobs").module, "jobs");
    assert_eq!(count(&edges, "svc::api", "svc::db"), Some(5));
    assert_eq!(count(&edges, "svc::api", "svc::jobs"), Some(4));
    assert_eq!(count(&edges, "svc::jobs", "svc::db"), Some(4));
    assert_eq!(edges.len(), 3);
    // Largest count first.
    assert_eq!(edges[0].count, 5);
    // Every edge joins two listed, different nodes and counts no more than either.
    for edge in &edges {
        assert_ne!(edge.source, edge.target);
        assert!(edge.count <= node(&nodes, &edge.source).samples);
        assert!(edge.count <= node(&nodes, &edge.target).samples);
    }
    for n in &nodes {
        assert!(n.off_cpu <= n.samples);
    }
    // All nodes together exceed all edges together by one tally per stack.
    let samples: u64 = nodes.iter().map(|n| n.samples).sum();
    let counts: u64 = edges.iter().map(|e| e.count).sum();
    assert_eq!(samples, counts + 3 + 4 + 2);
}

#[test]
fn the_graph_rests_on_tallies_and_dictionary() {
    let stacks: &[(u8, &[&str], u64, u64)] = &[
        (1, &["svc::db::query", "svc::api::get"], 3, 3),
        (2, &["do_futex", "svc::api::get"], 4, 0),
    ];
    let one = accum_of(stacks);
    let mut other = accum_of(stacks);
    other.total_samples = 99;
    other.workers.insert(7);
    other.min_ts = Some(1);
    other.max_ts = Some(2);
    let (nodes, edges) = build_module_graph(&one, &strings(&["svc"]));
    let (other_nodes, other_edges) = build_module_graph(&other, &strings(&["svc"]));
    assert_eq!(format!("{nodes:?}"), format!("{other_nodes:?}"));
    assert_eq!(edges.len(), other_edges.len());
    for e in &edges {
        assert_eq!(count(&other_edges, &e.source, &e.target), Some(e.count));
    }
}

#[test]
fn stacks_without_frames_are_left_out() {
    let mut accum = accum_of(&[(1, &["svc::api::get"], 2, 0)]);
    accum.stacks.insert(vec![9; 16], StackTally { total: 7, off_cpu: 7 });
    accum.dict.insert(vec![8; 16], strings(&["svc::never::sampled"]));
    let (nodes, edges) = build_module_graph(&accum, &strings(&["svc"]));
    assert_eq!(nodes.len(), 1);
    assert_eq!(nodes[0].id, "svc::api");
    assert_eq!(nodes[0].samples, 2);
    assert!(edges.is_empty());
}

#[test]
fn without_prefixes_everything_is_runtime() {
    let accum = accum_of(&[
        (1, &["svc::db::query", "svc::api::get"], 3, 1),
        (2, &["do_futex"], 2, 2),
    ]);
    let (nodes, edges) = build_module_graph(&accum, &[]);
    assert_eq!(nodes.len(), 1);
    assert_eq!(nodes[0].id, "runtime");
    assert_eq!(nodes[0].crate_name, "runtime");
    assert_eq!(nodes[0].module, "runtime");
    assert_eq!(nodes[0].samples, 5);
    assert_eq!(nodes[0].off_cpu, 3);
    assert!(edges.is_empty());
    let (nodes, edges) = build_module_graph(&GraphAccum::default(), &[]);
    assert!(nodes.is_empty());
    assert!(edges.is_empty());
}

#[test]
fn weights_beyond_the_range_are_refused() {
    // Twice visited: the node would weigh 2 * u64::MAX.
    let frames: &[&str] = &["svc::api::leaf", "std::thread::run", "svc::api::root"];
    let accum = accum_of(&[(1, frames, u64::MAX, 0)]);
    assert!(checked_module_graph(&accum, &strings(&["svc"])).is_none());
    let half = accum_of(&[(1, frames, u64::MAX / 2, 0)]);
    let (nodes, _) = checked_module_graph(&half, &strings(&["svc"])).unwrap();
    assert_eq!(node(&nodes, "svc::api").samples, u64::MAX - 1);
}

#[test]
fn infer_app_prefixes_excludes_runtime_crates() {
    let mut accum = GraphAccum::default();
    accum.dict.insert(
        vec![0u8; 16],
        vec![
            "metrics_service::routes::handle".to_string(),
            "tokio::runtime::poll".to_string(),
            "std::sys::futex".to_string(),
        ],
    );
    let inferred = accum.infer_app_prefixes();
    assert_eq!(inferred, vec!["metrics_service".to_string()]);
}

#[test]
fn inferred_prefixes_are_sorted_and_distinct() {
    let mut accum = GraphAccum::default();
    accum.dict.insert(
        vec![3; 16],
        strings(&["zebra::stripes::run", "alpha::one::run", "do_futex", "hyper::client::poll"]),
    );
    accum.dict.insert(vec![1; 16], strings(&["alpha::two::run", "alpha_b::x1::run"]));
    assert_eq!(
        accum.infer_app_prefixes(),
        strings(&["alpha", "alpha_b", "zebra"])
    );
    assert!(GraphAccum::default().infer_app_prefixes().is_empty());
    // Each inferred name keeps its own frames.
    let app = accum.infer_app_prefixes();
    assert_eq!(node_id_for("zebra::stripes::run", &app).0, "zebra::stripes");
    assert_eq!(node_id_for("alpha_b::x1::run", &app).0, "alpha_b::x1");
    assert_eq!(node_id_for("hyper::client::poll", &app).0, "runtime");
}
