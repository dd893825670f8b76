use lintrunner::runners::{
    find_orphaned_instances, is_gzip_compressed, CleanupResult, Ec2Instance, GitHubRunner,
    OrphanedInstanceFilter, ResourceFilter, RunnerPair,
};

fn runner(id: u64, name: &str) -> GitHubRunner {
    GitHubRunner {
        id,
        name: name.to_string(),
        status: "online".to_string(),
    }
}

fn instance(id: &str, name: &str) -> Ec2Instance {
    Ec2Instance {
        id: id.to_string(),
        name: name.to_string(),
        state: "running".to_string(),
    }
}

#[test]
fn test_find_orphaned_instances_empty_lists() {
    let github_runners = vec![];
    let ec2_instances = vec![];

    let result = find_orphaned_instances(&github_runners, &ec2_instances);
    assert_eq!(result.len(), 0);
}

#[test]
fn test_find_orphaned_instances_no_orphans() {
    let github_runners = vec![runner(1, "i-123"), runner(2, "i-456")];
    let ec2_instances = vec![instance("i-123", "runner-1"), instance("i-456", "runner-2")];

    let result = find_orphaned_instances(&github_runners, &ec2_instances);
    assert_eq!(result.len(), 0);
}

#[test]
fn test_find_orphaned_instances_with_orphans() {
    let github_runners = vec![runner(1, "i-123")];
    let ec2_instances = vec![
        instance("i-123", "runner-1"),
        instance("i-456", "runner-2"),
        instance("i-789", "runner-3"),
    ];

    let result = find_orphaned_instances(&github_runners, &ec2_instances);
    assert_eq!(result.len(), 2);
    assert!(result.iter().any(|i| i.id == "i-456"));
    assert!(result.iter().any(|i| i.id == "i-789"));
}

#[test]
fn test_find_orphaned_instances_no_github_runners() {
    let github_runners = vec![];
    let ec2_instances = vec![instance("i-123", "runner-1"), instance("i-456", "runner-2")];

    let result = find_orphaned_instances(&github_runners, &ec2_instances);
    assert_eq!(result.len(), 2);
}

#[test]
fn test_find_orphaned_instances_no_ec2_instances() {
    let github_runners = vec![runner(1, "i-123")];
    let ec2_instances = vec![];

    let result = find_orphaned_instances(&github_runners, &ec2_instances);
    assert_eq!(result.len(), 0);
}

#[test]
fn test_find_orphaned_instances() {
    let pair = RunnerPair {
        github_runners: vec![runner(1, "i-123")],
        ec2_instances: vec![instance("i-123", "runner-1"), instance("i-456", "runner-2")],
    };

    let orphaned = pair.find_orphaned_instances();
    assert_eq!(orphaned.len(), 1);
    assert_eq!(orphaned[0].id, "i-456");
}

#[test]
fn test_empty_instance_list() {
    let empty_instances: Vec<Ec2Instance> = vec![];
    assert_eq!(empty_instances.len(), 0);
}

#[test]
fn test_gzip_detection() {
    let gzip_header = vec![0x1f, 0x8b, 0x08, 0x00];
    assert!(is_gzip_compressed(&gzip_header));

    let not_gzip = vec![0x00, 0x01, 0x02, 0x03];
    assert!(!is_gzip_compressed(&not_gzip));

    let too_short = vec![0x1f];
    assert!(!is_gzip_compressed(&too_short));
}

#[test]
fn orphan_filter_processes_only_pairs_with_orphans() {
    let with_orphan = RunnerPair {
        github_runners: vec![runner(1, "i-123")],
        ec2_instances: vec![instance("i-123", "a"), instance("i-999", "b")],
    };
    let without_orphan = RunnerPair {
        github_runners: vec![runner(1, "i-123")],
        ec2_instances: vec![instance("i-123", "a")],
    };
    let filter = OrphanedInstanceFilter;
    assert!(filter.should_process(&with_orphan));
    assert!(!filter.should_process(&without_orphan));
}

#[test]
fn orphans_keep_instance_order() {
    let runners = vec![runner(1, "i-2")];
    let instances = vec![instance("i-3", "c"), instance("i-2", "b"), instance("i-1", "a")];
    let result = find_orphaned_instances(&runners, &instances);
    let ids: Vec<&str> = result.iter().map(|i| i.id.as_str()).collect();
    assert_eq!(ids, vec!["i-3", "i-1"]);
}

#[test]
fn cleanup_result_holds_counts() {
    let r = CleanupResult::new(3, 2, 1);
    assert_eq!(r.items_found, 3);
    assert_eq!(r.items_processed, 2);
    assert_eq!(r.items_failed, 1);
}
