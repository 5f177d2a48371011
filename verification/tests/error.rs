use mcpg_cluster_api::ClusterError;

#[test]
fn kind_label_bounded() {
    assert_eq!(ClusterError::NotFound { key: "k".into() }.kind_label(), "not_found");
    assert_eq!(
        ClusterError::BackendUnavailable { reason: "EIO".into() }.kind_label(),
        "backend_unavailable"
    );
    assert_eq!(
        ClusterError::NotLeader { role: "replay-compactor".into() }.kind_label(),
        "not_leader"
    );
    assert_eq!(ClusterError::LeaseExpired.kind_label(), "lease_expired");
    assert_eq!(ClusterError::Timeout.kind_label(), "timeout");
    assert_eq!(ClusterError::Shutdown.kind_label(), "shutdown");
}

#[test]
fn display_includes_detail() {
    let e = ClusterError::BackendUnavailable { reason: "etcd connection refused".into() };
    assert!(e.to_string().contains("etcd connection refused"));

    let e = ClusterError::NotLeader { role: "task-sweeper".into() };
    assert!(e.to_string().contains("task-sweeper"));
}

fn every_variant() -> Vec<(ClusterError, &'static str, &'static str)> {
    vec![
        (
            ClusterError::NotFound { key: "k".into() },
            "not_found",
            "cluster: key not found: k",
        ),
        (
            ClusterError::CasConflict { key: "k".into(), reason: "r".into() },
            "cas_conflict",
            "cluster: cas conflict on `k`: r",
        ),
        (
            ClusterError::Precondition { reason: "r".into() },
            "precondition",
            "cluster: precondition failed: r",
        ),
        (
            ClusterError::BackendUnavailable { reason: "r".into() },
            "backend_unavailable",
            "cluster: backend unavailable: r",
        ),
        (
            ClusterError::Unsupported { reason: "r".into() },
            "unsupported",
            "cluster: unsupported operation: r",
        ),
        (
            ClusterError::NotLeader { role: "r".into() },
            "not_leader",
            "cluster: not leader for role 'r'",
        ),
        (ClusterError::LeaseExpired, "lease_expired", "cluster: lease expired"),
        (
            ClusterError::InvalidReference { message: "m".into() },
            "invalid_reference",
            "cluster: invalid reference: m",
        ),
        (ClusterError::Timeout, "timeout", "cluster: operation timed out"),
        (ClusterError::Shutdown, "shutdown", "cluster: backend shutting down"),
        (
            ClusterError::Internal { reason: "r".into() },
            "internal",
            "cluster: internal: r",
        ),
    ]
}

#[test]
fn every_variant_has_its_label_and_text() {
    for (e, label, text) in every_variant() {
        assert_eq!(e.kind_label(), label);
        assert_eq!(e.to_string(), text);
    }
}

#[test]
fn labels_are_distinct() {
    let all = every_variant();
    for (i, a) in all.iter().enumerate() {
        for (j, b) in all.iter().enumerate() {
            assert_eq!(a.0.kind_label() == b.0.kind_label(), i == j);
        }
    }
}
