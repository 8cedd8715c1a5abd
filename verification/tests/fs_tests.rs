use pentaract::errors::PentaractError;
use pentaract::fs::{FileTree, UploadSession};

fn tree_with_files() -> FileTree {
    let mut tree = FileTree::new();
    tree.add_directory(b"docs".to_vec()).unwrap();
    tree.add_directory(b"docs/old".to_vec()).unwrap();
    upload_file(&mut tree, b"docs/Readme.txt", b"hello world", 4);
    upload_file(&mut tree, b"docs/data.bin", b"0123456789", 4);
    upload_file(&mut tree, b"notes.txt", b"top level", 4);
    tree
}

fn upload_file(tree: &mut FileTree, path: &[u8], data: &[u8], chunk_size: usize) {
    let mut session = UploadSession::begin(path.to_vec(), &data.to_vec(), chunk_size);
    let mut ids = 0u64;
    while let Some(_chunk) = session.next_chunk() {
        let remote_id = format!("obj-{ids}").into_bytes();
        session.record_chunk(remote_id, 1);
        ids += 1;
    }
    assert!(session.is_complete());
    session.commit(tree).unwrap();
}

#[test]
fn listing_is_deterministic_and_orders_directories_first() {
    let tree = tree_with_files();
    let l1 = tree.list_tree(&b"docs".to_vec()).unwrap();
    let l2 = tree.list_tree(&b"docs".to_vec()).unwrap();
    let paths1: Vec<Vec<u8>> = l1.iter().map(|n| n.path.clone()).collect();
    let paths2: Vec<Vec<u8>> = l2.iter().map(|n| n.path.clone()).collect();
    assert_eq!(paths1, paths2);
    assert_eq!(
        paths1,
        vec![
            b"docs/old".to_vec(),
            b"docs/Readme.txt".to_vec(),
            b"docs/data.bin".to_vec(),
        ]
    );
}

#[test]
fn listing_the_root_shows_top_level_entries_only() {
    let tree = tree_with_files();
    let l = tree.list_tree(&Vec::new()).unwrap();
    let paths: Vec<Vec<u8>> = l.iter().map(|n| n.path.clone()).collect();
    assert_eq!(paths, vec![b"docs".to_vec(), b"notes.txt".to_vec()]);
}

#[test]
fn queries_on_a_missing_path_all_say_not_found() {
    let tree = tree_with_files();
    let missing = b"docs/absent.txt".to_vec();
    assert!(matches!(
        tree.get_info(&missing).unwrap_err(),
        PentaractError::NotFound { .. }
    ));
    assert!(matches!(
        tree.download_plan(&missing).unwrap_err(),
        PentaractError::NotFound { .. }
    ));
    assert!(matches!(
        tree.list_tree(&missing).unwrap_err(),
        PentaractError::NotFound { .. }
    ));
}

#[test]
fn listing_a_file_path_is_not_found() {
    let tree = tree_with_files();
    assert!(matches!(
        tree.list_tree(&b"notes.txt".to_vec()).unwrap_err(),
        PentaractError::NotFound { .. }
    ));
}

#[test]
fn downloading_a_directory_is_an_invalid_operation() {
    let tree = tree_with_files();
    assert!(matches!(
        tree.download_plan(&b"docs".to_vec()).unwrap_err(),
        PentaractError::InvalidOperation { .. }
    ));
}

#[test]
fn download_plan_returns_chunk_refs_in_index_order() {
    let tree = tree_with_files();
    let refs = tree.download_plan(&b"docs/data.bin".to_vec()).unwrap();
    assert_eq!(refs.len(), 3);
    for (k, r) in refs.iter().enumerate() {
        assert_eq!(r.index, k);
    }
    assert_eq!(refs[0].remote_id, b"obj-0".to_vec());
    assert_eq!(refs[0].size, 4);
    assert_eq!(refs[2].size, 2);
}

#[test]
fn get_info_reports_size_and_kind() {
    let tree = tree_with_files();
    let info = tree.get_info(&b"docs/data.bin".to_vec()).unwrap();
    assert!(!info.is_dir);
    assert_eq!(info.size, 10);
    let dir = tree.get_info(&b"docs".to_vec()).unwrap();
    assert!(dir.is_dir);
}

#[test]
fn a_failed_upload_leaves_the_path_absent_and_orphans_its_chunks() {
    let mut tree = tree_with_files();
    let path = b"docs/failed.bin".to_vec();
    let mut session = UploadSession::begin(path.clone(), &b"0123456789abcdef".to_vec(), 4);
    // two of four chunks stored, then the upload fails irrecoverably
    session.record_chunk(b"orphan-0".to_vec(), 1);
    session.record_chunk(b"orphan-1".to_vec(), 1);
    let e = session.abort(&mut tree);
    assert!(matches!(
        e,
        PentaractError::PartialUploadError { uploaded: 2, failed_at: 2 }
    ));
    assert!(matches!(
        tree.get_info(&path).unwrap_err(),
        PentaractError::NotFound { .. }
    ));
    let listed = tree.list_tree(&b"docs".to_vec()).unwrap();
    assert!(listed.iter().all(|n| n.path != path));
    assert_eq!(tree.orphans.len(), 2);
    assert_eq!(tree.orphans[0].remote_id, b"orphan-0".to_vec());
}

#[test]
fn committing_over_an_existing_path_fails_and_changes_nothing() {
    let mut tree = tree_with_files();
    let before = tree.nodes.len();
    let mut session = UploadSession::begin(b"notes.txt".to_vec(), &b"xy".to_vec(), 4);
    session.record_chunk(b"dup".to_vec(), 1);
    let e = session.commit(&mut tree).unwrap_err();
    assert!(matches!(e, PentaractError::InvalidOperation { .. }));
    assert_eq!(tree.nodes.len(), before);
}

#[test]
fn search_is_case_insensitive_substring_on_names() {
    let tree = tree_with_files();
    let hits = tree.search(&Vec::new(), &b"readme".to_vec(), 10);
    let paths: Vec<Vec<u8>> = hits.iter().map(|n| n.path.clone()).collect();
    assert_eq!(paths, vec![b"docs/Readme.txt".to_vec()]);

    let hits = tree.search(&b"docs".to_vec(), &b"TXT".to_vec(), 10);
    let paths: Vec<Vec<u8>> = hits.iter().map(|n| n.path.clone()).collect();
    assert_eq!(paths, vec![b"docs/Readme.txt".to_vec()]);
}

#[test]
fn search_respects_the_result_cap() {
    let tree = tree_with_files();
    let hits = tree.search(&Vec::new(), &Vec::new(), 2);
    assert_eq!(hits.len(), 2);
}

#[test]
fn search_below_a_missing_base_finds_nothing() {
    let tree = tree_with_files();
    assert!(tree.search(&b"nowhere".to_vec(), &b"txt".to_vec(), 10).is_empty());
}
