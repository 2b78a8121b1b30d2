//! Tests for batch jobs and file discovery rules.

use medimg_compress::batch::file_discovery::FileDiscovery;
use medimg_compress::batch::job::{BatchJob, JobStatus};

#[test]
fn test_job_status_terminal() {
    assert!(!JobStatus::Pending.is_terminal());
    assert!(!JobStatus::Running.is_terminal());
    assert!(JobStatus::Completed.is_terminal());
    assert!(JobStatus::Failed.is_terminal());
    assert!(JobStatus::Cancelled.is_terminal());
    assert!(JobStatus::Skipped.is_terminal());
}

#[test]
fn test_job_status_success() {
    assert!(!JobStatus::Pending.is_success());
    assert!(JobStatus::Completed.is_success());
    assert!(JobStatus::Skipped.is_success());
    assert!(!JobStatus::Failed.is_success());
}

#[test]
fn test_batch_job_creation() {
    let job = BatchJob::new(1, "/test/file.dcm".to_string());
    assert_eq!(job.id, 1);
    assert_eq!(job.status, JobStatus::Pending);
    assert_eq!(job.file_name(), "file.dcm");
}

#[test]
fn test_batch_job_builder() {
    let job = BatchJob::new(1, "/test/file.dcm".to_string())
        .with_output("/output/file.dcm".to_string())
        .with_priority(50);

    assert_eq!(job.output_path, Some("/output/file.dcm".to_string()));
    assert_eq!(job.priority, 50);
}

#[test]
fn test_file_name_edge_cases() {
    let job = BatchJob::new(2, "/test/dir/".to_string());
    assert_eq!(job.file_name(), "dir");
    let root = BatchJob::new(3, "/".to_string());
    assert_eq!(root.file_name(), "unknown");
}

#[test]
fn test_glob_match() {
    let discovery = FileDiscovery::new();

    assert!(discovery.glob_match("test.dcm", "*.dcm"));
    assert!(discovery.glob_match("test.dcm", "test.dcm"));
    assert!(discovery.glob_match("test.dcm", "test.*"));
    assert!(discovery.glob_match("test.dcm", "*.*"));
    assert!(discovery.glob_match("test.dcm", "t?st.dcm"));
    assert!(!discovery.glob_match("test.dcm", "*.txt"));
    assert!(!discovery.glob_match("test.dcm", "foo.dcm"));
}

#[test]
fn test_matches_pattern_ignores_case() {
    let discovery = FileDiscovery::new();
    assert!(discovery.matches_pattern("/data/scan1.dcm"));
    assert!(discovery.matches_pattern("/data/SCAN2.DCM"));
    assert!(!discovery.matches_pattern("/data/notes.txt"));
}

#[test]
fn test_discovery_builders() {
    let discovery = FileDiscovery::new()
        .recursive(true)
        .max_depth(3)
        .pattern("*.txt")
        .follow_symlinks(true);
    assert!(discovery.recursive);
    assert_eq!(discovery.max_depth, Some(3));
    assert!(discovery.follow_symlinks);
    assert_eq!(discovery.patterns.len(), 3);
    assert!(discovery.matches_pattern("readme.TXT"));
}
